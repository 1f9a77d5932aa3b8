//! Figures reported after a run: counts of sales and tickets.

use vstd::prelude::*;
use crate::kind::SaleKind;
use crate::plus::{SalePlus, SalesPlus, SaleClass, class_count, export_row, export_header};
use crate::csvread::{csv_text, csv_line_of, csv_lines};
use crate::text::{decimal, decimal_spec, texts};

verus! {

/// A report field made of a name and a text.
pub struct StringField(pub String, pub String);

/// A report field that is a table of names and texts.
pub struct TableField(pub String, pub Vec<(String, String)>);

/// A string field.
pub fn sf(name: &str, value: String) -> (r: StringField)
    ensures
        r.0@ == name@,
        r.1@ == value@,
{
    StringField(String::from_str(name), value)
}

/// A table field, each value written in decimal.
pub fn tf(name: &str, rows: &Vec<(String, usize)>) -> (r: TableField)
    ensures
        r.0@ == name@,
        r.1@.len() == rows@.len(),
        forall|i: int| 0 <= i < rows@.len() ==> (#[trigger] r.1@[i]).0@ == rows@[i].0@ && r.1@[i].1@
            == decimal_spec(rows@[i].1 as nat),
{
    let mut v: Vec<(String, String)> = Vec::new();
    let mut i: usize = 0;
    while i < rows.len()
        invariant
            i <= rows@.len(),
            v@.len() == i,
            forall|k: int| 0 <= k < i ==> (#[trigger] v@[k]).0@ == rows@[k].0@ && v@[k].1@ == decimal_spec(
                rows@[k].1 as nat,
            ),
        decreases rows@.len() - i,
    {
        let key = rows[i].0.clone();
        let val = decimal(rows[i].1);
        v.push((key, val));
        i = i + 1;
    }
    TableField(String::from_str(name), v)
}

/// Tickets of a sale if it is settled, else none.
pub open spec fn settled_tickets(p: SalePlus) -> int {
    match p.pricematch {
        Some(m) => m.tickets_spec(),
        None => 0,
    }
}

/// Sum of `f` over the first `n` sales.
pub open spec fn sum_over(items: Seq<SalePlus>, n: int, f: spec_fn(SalePlus) -> int) -> int
    decreases n,
{
    if n <= 0 {
        0
    } else {
        sum_over(items, n - 1, f) + f(items[n - 1])
    }
}

/// Tickets of a settled online sale, else none.
pub open spec fn online_tickets_of(p: SalePlus) -> int {
    if p.sale.sale_kind is Online {
        settled_tickets(p)
    } else {
        0
    }
}

/// Which sales count in a ticket total.
pub enum TicketScope {
    /// Every settled sale.
    All,
    /// Settled online sales.
    Online,
}

impl TicketScope {
    /// Tickets of a sale within the scope.
    pub open spec fn of(&self) -> spec_fn(SalePlus) -> int {
        match self {
            TicketScope::All => |p: SalePlus| settled_tickets(p),
            TicketScope::Online => |p: SalePlus| online_tickets_of(p),
        }
    }
}

/// `x`, capped at the largest `usize`.
pub open spec fn capped(x: int) -> int {
    if x > usize::MAX {
        usize::MAX as int
    } else {
        x
    }
}

/// Tickets of one sale, capped at the largest `usize`.
fn tickets_of(p: &SalePlus, scope: &TicketScope) -> (r: usize)
    ensures
        r == capped((scope.of())(*p)),
{
    let counted = match scope {
        TicketScope::All => true,
        TicketScope::Online => match p.sale.sale_kind {
            SaleKind::Online(_) => true,
            SaleKind::Offline => false,
        },
    };
    if !counted {
        return 0;
    }
    match p.pricematch {
        Some(m) => match m {
            crate::pricing::PricingMatch::Multiple(a) => a.1,
            crate::pricing::PricingMatch::PromoCombo(a, b) | crate::pricing::PricingMatch::TurnOfBatch(a, b) => {
                if a.1 > usize::MAX - b.1 {
                    usize::MAX
                } else {
                    a.1 + b.1
                }
            },
        },
        None => 0,
    }
}

/// Total tickets of the sales in scope, capped at the largest `usize`.
fn count_tickets(sp: &SalesPlus, scope: &TicketScope) -> (r: usize)
    ensures
        r == capped(sum_over(sp.sales@, sp.sales@.len() as int, scope.of())),
{
    let mut acc: usize = 0;
    let mut i: usize = 0;
    while i < sp.sales.len()
        invariant
            i <= sp.sales@.len(),
            acc == capped(sum_over(sp.sales@, i as int, scope.of())),
            sum_over(sp.sales@, i as int, scope.of()) >= 0,
        decreases sp.sales@.len() - i,
    {
        let t = tickets_of(&sp.sales[i], scope);
        proof {
            reveal_with_fuel(sum_over, 1);
            assert((scope.of())(sp.sales@[i as int]) >= 0);
        }
        acc = if acc > usize::MAX - t {
            usize::MAX
        } else {
            acc + t
        };
        i = i + 1;
    }
    acc
}

/// Total sales in the ledger.
pub fn total_sales(sp: &SalesPlus) -> (r: StringField)
    ensures
        r.0@ == "Total de vendas"@,
        r.1@ == decimal_spec(sp.sales@.len()),
{
    sf("Total de vendas", decimal(sp.sales.len()))
}

/// Percentage of `part` in `whole`, rounded half up; zero for an empty whole.
pub open spec fn percent(part: nat, whole: nat) -> nat {
    if whole == 0 {
        0
    } else {
        (200 * part + whole) / (2 * whole)
    }
}

/// Sales settled on a match, with their percentage.
pub fn total_ok(sp: &SalesPlus) -> (r: StringField)
    ensures
        r.0@ == "Vendas ok"@,
        r.1@ == decimal_spec(class_count(sp.sales@, sp.sales@.len() as int, SaleClass::Settled)) + " ("@ + decimal_spec(
            percent(class_count(sp.sales@, sp.sales@.len() as int, SaleClass::Settled), sp.sales@.len()),
        ) + "%)"@,
{
    let oks = sp.oks();
    let nok = oks.len();
    let len = sp.sales.len();
    proof {
        lemma_class_count_bound(sp.sales@, sp.sales@.len() as int, SaleClass::Settled);
    }
    let perc: usize = if len == 0 {
        0
    } else {
        assert((200 * nok + len) / (2 * len) <= 100) by (nonlinear_arith)
            requires nok <= len, len > 0;
        ((200 * (nok as u128) + (len as u128)) / (2 * (len as u128))) as usize
    };
    let mut s = decimal(nok);
    s.append(" (");
    let p = decimal(perc);
    s.append(p.as_str());
    s.append("%)");
    sf("Vendas ok", s)
}

/// No more sales of a class than sales.
proof fn lemma_class_count_bound(items: Seq<SalePlus>, n: int, class: SaleClass)
    requires
        0 <= n,
    ensures
        class_count(items, n, class) <= n,
    decreases n,
{
    if n > 0 {
        lemma_class_count_bound(items, n - 1, class);
    }
}

/// Total tickets sold.
pub fn total_tickets(sp: &SalesPlus) -> (r: StringField)
    ensures
        r.0@ == "Total de ingressos: "@,
        r.1@ == decimal_spec(capped(sum_over(sp.sales@, sp.sales@.len() as int, TicketScope::All.of())) as nat),
{
    let n = count_tickets(sp, &TicketScope::All);
    sf("Total de ingressos: ", decimal(n))
}

/// Total tickets sold online.
pub fn online_tickets(sp: &SalesPlus) -> (r: StringField)
    ensures
        r.0@ == "Ingressos online: "@,
        r.1@ == decimal_spec(capped(sum_over(sp.sales@, sp.sales@.len() as int, TicketScope::Online.of())) as nat),
{
    let n = count_tickets(sp, &TicketScope::Online);
    sf("Ingressos online: ", decimal(n))
}

/// Number of ambiguous sales.
pub fn ambiguous_sales(sp: &SalesPlus) -> (r: StringField)
    ensures
        r.0@ == "Vendas (inicialmente) ambíguas"@,
        r.1@ == decimal_spec(class_count(sp.sales@, sp.sales@.len() as int, SaleClass::Ambiguous)),
{
    let v = sp.ambiguous();
    sf("Vendas (inicialmente) ambíguas", decimal(v.len()))
}

/// Number of sales with no solution.
pub fn evil_sales(sp: &SalesPlus) -> (r: StringField)
    ensures
        r.0@ == "Vendas sem nenhuma solução"@,
        r.1@ == decimal_spec(class_count(sp.sales@, sp.sales@.len() as int, SaleClass::NoMatch)),
{
    let v = sp.villains();
    sf("Vendas sem nenhuma solução", decimal(v.len()))
}

/// The sale is settled and sold at the point of sale named `name`.
pub open spec fn sold_at(p: SalePlus, name: Seq<char>) -> bool {
    p.pricematch is Some && (p.sale.seller_name matches Some(s) && s@ == name)
}

/// Tickets of the first `n` sales settled at the point of sale `name`.
pub open spec fn tickets_at(items: Seq<SalePlus>, n: int, name: Seq<char>) -> int
    decreases n,
{
    if n <= 0 {
        0
    } else {
        tickets_at(items, n - 1, name) + if sold_at(items[n - 1], name) {
            settled_tickets(items[n - 1])
        } else {
            0
        }
    }
}

/// Some of the first `n` sales is settled at the point of sale `name`.
pub open spec fn seen_at(items: Seq<SalePlus>, n: int, name: Seq<char>) -> bool
    decreases n,
{
    if n <= 0 {
        false
    } else {
        seen_at(items, n - 1, name) || sold_at(items[n - 1], name)
    }
}

/// The rows of the per-seller table over the first `n` sales: one per point of
/// sale with a settled sale, with its capped ticket total.
pub open spec fn seller_rows_ok(rows: Seq<(String, usize)>, items: Seq<SalePlus>, n: int) -> bool {
    &&& forall|a: int, b: int| 0 <= a < b < rows.len() ==> rows[a].0@ != rows[b].0@
    &&& forall|a: int| 0 <= a < rows.len() ==> seen_at(items, n, (#[trigger] rows[a]).0@) && rows[a].1 == capped(
        tickets_at(items, n, rows[a].0@),
    )
    &&& forall|name: Seq<char>| #[trigger] seen_at(items, n, name) ==> exists|a: int| 0 <= a < rows.len() && (#[trigger] rows[a]).0@ == name
}

/// The position of the row of `name`, if there is one.
fn row_of(rows: &Vec<(String, usize)>, name: &String) -> (r: Option<usize>)
    ensures
        match r {
            Some(a) => a < rows@.len() && rows@[a as int].0@ == name@,
            None => forall|a: int| 0 <= a < rows@.len() ==> (#[trigger] rows@[a]).0@ != name@,
        },
{
    let mut a: usize = 0;
    while a < rows.len()
        invariant
            a <= rows@.len(),
            forall|k: int| 0 <= k < a ==> (#[trigger] rows@[k]).0@ != name@,
        decreases rows@.len() - a,
    {
        if rows[a].0.eq(name) {
            return Some(a);
        }
        a = a + 1;
    }
    None
}

/// Tickets per point of sale, over settled sales with a seller name.
pub fn seller_table(sp: &SalesPlus) -> (r: Vec<(String, usize)>)
    ensures
        seller_rows_ok(r@, sp.sales@, sp.sales@.len() as int),
{
    let ghost items = sp.sales@;
    let mut rows: Vec<(String, usize)> = Vec::new();
    let mut i: usize = 0;
    while i < sp.sales.len()
        invariant
            items == sp.sales@,
            i <= items.len(),
            seller_rows_ok(rows@, items, i as int),
        decreases items.len() - i,
    {
        let p = &sp.sales[i];
        proof {
            reveal_with_fuel(tickets_at, 1);
            reveal_with_fuel(seen_at, 1);
        }
        if p.pricematch.is_some() {
            if let Some(name) = &p.sale.seller_name {
                let t = tickets_of(p, &TicketScope::All);
                let ghost pre = rows@;
                match row_of(&rows, name) {
                    Some(a) => {
                        let cur = rows[a].1;
                        let next = if cur > usize::MAX - t {
                            usize::MAX
                        } else {
                            cur + t
                        };
                        let key = rows[a].0.clone();
                        rows.set(a, (key, next));
                        proof {
                            assert forall|b: int| 0 <= b < rows@.len() implies seen_at(items, i + 1, (#[trigger] rows@[b]).0@)
                                && rows@[b].1 == capped(tickets_at(items, i + 1, rows@[b].0@)) by {
                                if b != a {
                                    assert(rows@[b] == pre[b]);
                                    assert(pre[b].0@ != name@);
                                }
                            }
                            assert forall|nm: Seq<char>| #[trigger] seen_at(items, i + 1, nm) implies exists|b: int| 0 <= b < rows@.len() && (#[trigger] rows@[b]).0@ == nm by {
                                if seen_at(items, i as int, nm) {
                                    let b = choose|b: int| 0 <= b < pre.len() && (#[trigger] pre[b]).0@ == nm;
                                    assert(rows@[b].0@ == nm);
                                } else {
                                    assert(rows@[a as int].0@ == nm);
                                }
                            }
                        }
                    },
                    None => {
                        let key = name.clone();
                        rows.push((key, t));
                        proof {
                            assert(!seen_at(items, i as int, name@));
                            assert forall|b: int| 0 <= b < rows@.len() implies seen_at(items, i + 1, (#[trigger] rows@[b]).0@)
                                && rows@[b].1 == capped(tickets_at(items, i + 1, rows@[b].0@)) by {
                                if b < pre.len() {
                                    assert(rows@[b] == pre[b]);
                                    assert(pre[b].0@ != name@);
                                } else {
                                    lemma_not_seen_no_tickets(items, i as int, name@);
                                }
                            }
                            assert forall|nm: Seq<char>| #[trigger] seen_at(items, i + 1, nm) implies exists|b: int| 0 <= b < rows@.len() && (#[trigger] rows@[b]).0@ == nm by {
                                if seen_at(items, i as int, nm) {
                                    let b = choose|b: int| 0 <= b < pre.len() && (#[trigger] pre[b]).0@ == nm;
                                    assert(rows@[b] == pre[b]);
                                } else {
                                    assert(rows@[pre.len() as int].0@ == nm);
                                }
                            }
                        }
                    },
                }
            } else {
                proof {
                    lemma_rows_unchanged(rows@, items, i as int);
                }
            }
        } else {
            proof {
                lemma_rows_unchanged(rows@, items, i as int);
            }
        }
        i = i + 1;
    }
    rows
}

/// A point of sale with no settled sale yet has no tickets.
proof fn lemma_not_seen_no_tickets(items: Seq<SalePlus>, n: int, name: Seq<char>)
    requires
        !seen_at(items, n, name),
    ensures
        tickets_at(items, n, name) == 0,
    decreases n,
{
    if n > 0 {
        lemma_not_seen_no_tickets(items, n - 1, name);
    }
}

/// A sale settled at no point of sale leaves the table as it is.
proof fn lemma_rows_unchanged(rows: Seq<(String, usize)>, items: Seq<SalePlus>, n: int)
    requires
        0 <= n < items.len(),
        seller_rows_ok(rows, items, n),
        !(items[n].pricematch is Some && items[n].sale.seller_name is Some),
    ensures
        seller_rows_ok(rows, items, n + 1),
{
    assert forall|nm: Seq<char>| #[trigger] seen_at(items, n + 1, nm) implies exists|b: int| 0 <= b < rows.len() && (#[trigger] rows[b]).0@ == nm by {
        assert(seen_at(items, n, nm));
    }
}

/// The text rows of the per-seller table of a ledger: one per point of sale
/// with a settled sale, with its capped ticket total in decimal.
pub open spec fn seller_table_ok(t: Seq<(String, String)>, sp: SalesPlus) -> bool {
    exists|rows: Seq<(String, usize)>| #[trigger] seller_rows_ok(rows, sp.sales@, sp.sales@.len() as int) && t.len()
        == rows.len() && forall|i: int| 0 <= i < rows.len() ==> (#[trigger] t[i]).0@ == rows[i].0@ && t[i].1@
        == decimal_spec(rows[i].1 as nat)
}

/// Physical tickets per point of sale.
pub fn sales_per_seller(sp: &SalesPlus) -> (r: TableField)
    ensures
        r.0@ == "Ingressos físicos por ponto de venda"@,
        seller_table_ok(r.1@, *sp),
{
    let rows = seller_table(sp);
    tf("Ingressos físicos por ponto de venda", &rows)
}

/// A figure of the report.
#[derive(Copy, Clone, Debug, PartialEq, Eq, Structural)]
pub enum FieldFn {
    /// Number of sales.
    TotalSales,
    /// Number and share of settled sales.
    TotalOk,
    /// Tickets of settled sales.
    TotalTickets,
    /// Tickets of settled online sales.
    OnlineTickets,
    /// Number of ambiguous sales.
    AmbiguousSales,
    /// Number of sales with no match.
    EvilSales,
}

/// A table of the report.
#[derive(Copy, Clone, Debug, PartialEq, Eq, Structural)]
pub enum TableFn {
    /// Tickets per point of sale.
    SalesPerSeller,
}

impl FieldFn {
    /// Name of the figure.
    pub open spec fn title(self) -> Seq<char> {
        match self {
            FieldFn::TotalSales => "Total de vendas"@,
            FieldFn::TotalOk => "Vendas ok"@,
            FieldFn::TotalTickets => "Total de ingressos: "@,
            FieldFn::OnlineTickets => "Ingressos online: "@,
            FieldFn::AmbiguousSales => "Vendas (inicialmente) ambíguas"@,
            FieldFn::EvilSales => "Vendas sem nenhuma solução"@,
        }
    }

    /// Text of the figure for a ledger.
    pub open spec fn value(self, sp: SalesPlus) -> Seq<char> {
        let items = sp.sales@;
        let n = items.len() as int;
        match self {
            FieldFn::TotalSales => decimal_spec(items.len()),
            FieldFn::TotalOk => decimal_spec(class_count(items, n, SaleClass::Settled)) + " ("@ + decimal_spec(
                percent(class_count(items, n, SaleClass::Settled), items.len()),
            ) + "%)"@,
            FieldFn::TotalTickets => decimal_spec(capped(sum_over(items, n, TicketScope::All.of())) as nat),
            FieldFn::OnlineTickets => decimal_spec(capped(sum_over(items, n, TicketScope::Online.of())) as nat),
            FieldFn::AmbiguousSales => decimal_spec(class_count(items, n, SaleClass::Ambiguous)),
            FieldFn::EvilSales => decimal_spec(class_count(items, n, SaleClass::NoMatch)),
        }
    }

    /// Computes the figure.
    pub fn apply(&self, sp: &SalesPlus) -> (r: StringField)
        ensures
            r.0@ == self.title(),
            r.1@ == self.value(*sp),
    {
        match self {
            FieldFn::TotalSales => total_sales(sp),
            FieldFn::TotalOk => total_ok(sp),
            FieldFn::TotalTickets => total_tickets(sp),
            FieldFn::OnlineTickets => online_tickets(sp),
            FieldFn::AmbiguousSales => ambiguous_sales(sp),
            FieldFn::EvilSales => evil_sales(sp),
        }
    }
}

impl TableFn {
    /// Name of the table.
    pub open spec fn title(self) -> Seq<char> {
        "Ingressos físicos por ponto de venda"@
    }

    /// Computes the table.
    pub fn apply(&self, sp: &SalesPlus) -> (r: TableField)
        ensures
            r.0@ == self.title(),
            seller_table_ok(r.1@, *sp),
    {
        sales_per_seller(sp)
    }
}

/// A report skeleton: the figures and tables to compute.
pub struct ReportTemplate {
    /// The figures, in order.
    pub sfields: Vec<FieldFn>,
    /// The tables, in order.
    pub tfields: Vec<TableFn>,
}

/// A computed report.
pub struct Report {
    /// The figures, in order.
    pub sfields: Vec<StringField>,
    /// The tables, in order.
    pub tfields: Vec<TableField>,
    /// The enriched export, one row per sale.
    pub better_csv: Vec<Vec<String>>,
}

impl Default for ReportTemplate {
    /// Every figure and table.
    fn default() -> (r: ReportTemplate)
        ensures
            r.sfields@ == seq![
                FieldFn::TotalSales,
                FieldFn::TotalOk,
                FieldFn::TotalTickets,
                FieldFn::OnlineTickets,
                FieldFn::AmbiguousSales,
                FieldFn::EvilSales,
            ],
            r.tfields@ == seq![TableFn::SalesPerSeller],
    {
        let mut s: Vec<FieldFn> = Vec::new();
        s.push(FieldFn::TotalSales);
        s.push(FieldFn::TotalOk);
        s.push(FieldFn::TotalTickets);
        s.push(FieldFn::OnlineTickets);
        s.push(FieldFn::AmbiguousSales);
        s.push(FieldFn::EvilSales);
        let mut t: Vec<TableFn> = Vec::new();
        t.push(TableFn::SalesPerSeller);
        assert(s@ =~= seq![
            FieldFn::TotalSales,
            FieldFn::TotalOk,
            FieldFn::TotalTickets,
            FieldFn::OnlineTickets,
            FieldFn::AmbiguousSales,
            FieldFn::EvilSales,
        ]);
        assert(t@ =~= seq![TableFn::SalesPerSeller]);
        ReportTemplate { sfields: s, tfields: t }
    }
}

impl ReportTemplate {
    /// Computes the report from sales data: each figure and table in order,
    /// and the enriched export.
    pub fn compute(&self, data: &SalesPlus) -> (r: Report)
        ensures
            r.sfields@.len() == self.sfields@.len(),
            forall|i: int| 0 <= i < r.sfields@.len() ==> (#[trigger] r.sfields@[i]).0@ == self.sfields@[i].title()
                && r.sfields@[i].1@ == self.sfields@[i].value(*data),
            r.tfields@.len() == self.tfields@.len(),
            forall|i: int| 0 <= i < r.tfields@.len() ==> (#[trigger] r.tfields@[i]).0@ == self.tfields@[i].title()
                && seller_table_ok(r.tfields@[i].1@, *data),
            r.better_csv@.len() == data.sales@.len(),
            forall|i: int| 0 <= i < r.better_csv@.len() ==> texts(#[trigger] r.better_csv@[i]@) == export_row(data.sales@[i]),
    {
        let mut sf: Vec<StringField> = Vec::new();
        let mut i: usize = 0;
        while i < self.sfields.len()
            invariant
                i <= self.sfields@.len(),
                sf@.len() == i,
                forall|k: int| 0 <= k < i ==> (#[trigger] sf@[k]).0@ == self.sfields@[k].title() && sf@[k].1@
                    == self.sfields@[k].value(*data),
            decreases self.sfields@.len() - i,
        {
            sf.push(self.sfields[i].apply(data));
            i = i + 1;
        }
        let mut tf: Vec<TableField> = Vec::new();
        let mut j: usize = 0;
        while j < self.tfields.len()
            invariant
                j <= self.tfields@.len(),
                tf@.len() == j,
                forall|k: int| 0 <= k < j ==> (#[trigger] tf@[k]).0@ == self.tfields@[k].title() && seller_table_ok(
                    tf@[k].1@,
                    *data,
                ),
            decreases self.tfields@.len() - j,
        {
            tf.push(self.tfields[j].apply(data));
            j = j + 1;
        }
        Report { sfields: sf, tfields: tf, better_csv: data.gen_csv() }
    }
}

impl Report {
    /// The enriched export as CSV text: the header, then one line per sale.
    pub fn make_csv_txt(&self) -> (r: String)
        ensures
            r@ == csv_line_of(export_header()) + csv_lines(
                self.better_csv@.map_values(|v: Vec<String>| texts(v@)),
                self.better_csv@.len() as int,
            ),
    {
        let h = SalePlus::better_csv_header();
        csv_text(&h, &self.better_csv)
    }
}

} // verus!
