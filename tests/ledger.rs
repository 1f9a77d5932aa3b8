use d4csv::ambiguity::AmbiguitySolver;
use d4csv::context::{parse_prices, ContextError, SalesContext};
use d4csv::fields::{contains_text, field_or_na, parse_cents};
use d4csv::kind::SaleKind;
use d4csv::plus::{SalePlus, SalesPlus};
use d4csv::report::{total_ok, total_tickets, ReportTemplate};
use d4csv::sale::{Sale, SaleError, Timestamp};
use d4csv::seller::Seller;

fn row(date: &str, amount: &str, kind: &str, seller: &str) -> Vec<String> {
    vec![
        date, "a@b.c", "N/A", amount, kind, seller, "", "N/A", "tok", "42", "", "", "",
    ]
    .into_iter()
    .map(|s| s.to_string())
    .collect()
}

fn ctx() -> SalesContext {
    SalesContext::try_new((11, 10), vec![5000, 6000, 7000], None, AmbiguitySolver::SellerLookBehind).unwrap()
}

#[test]
fn amounts_round_to_the_nearest_cent() {
    assert_eq!(parse_cents("55"), Some(5500));
    assert_eq!(parse_cents("77.5"), Some(7750));
    assert_eq!(parse_cents("60.00"), Some(6000));
    assert_eq!(parse_cents("1.005"), Some(101));
    assert_eq!(parse_cents("1.004"), Some(100));
    assert_eq!(parse_cents(".5"), Some(50));
    assert_eq!(parse_cents("5."), Some(500));
    assert_eq!(parse_cents("."), None);
    assert_eq!(parse_cents(""), None);
    assert_eq!(parse_cents("1.2.3"), None);
    assert_eq!(parse_cents("abc"), None);
}

#[test]
fn optional_fields() {
    assert_eq!(field_or_na(Some("N/A")), None);
    assert_eq!(field_or_na(Some("")), None);
    assert_eq!(field_or_na(None), None);
    assert_eq!(field_or_na(Some("Ana")), Some("Ana".to_string()));
    assert!(contains_text("Paga Online", "Online"));
    assert!(!contains_text("Paga Físico", "Online"));
}

#[test]
fn a_row_reads_as_a_sale() {
    let s = Sale::try_from(&row("2022-05-01T12:00:00-03:00", "66.00", "Paga Online", ""), &ctx()).unwrap();
    assert_eq!(s.when, Timestamp { secs: 1651417200, nanos: 0 });
    assert_eq!(s.value, 6600);
    assert!(matches!(s.sale_kind, SaleKind::Online((11, 10))));
    assert_eq!(s.real_price(), 6000);
    assert_eq!(s.buyer_email, Some("a@b.c".to_string()));
    assert_eq!(s.buyer_username, None);
    assert_eq!(s.seller_name, None);
    assert_eq!(s.token, "tok");
    assert_eq!(s.sale_id, "42");
}

#[test]
fn bad_rows_give_their_error() {
    let c = ctx();
    let mut short = row("2022-05-01T12:00:00Z", "60", "Paga", "X");
    short.pop();
    assert!(matches!(Sale::try_from(&short, &c), Err(SaleError::WrongColumns(12))));
    assert!(matches!(Sale::try_from(&row("2022-05-01T12:00:00Z", "six", "Paga", "X"), &c), Err(SaleError::BadAmount)));
    assert!(matches!(Sale::try_from(&row("yesterday", "60", "Paga", "X"), &c), Err(SaleError::BadDate)));
}

#[test]
fn records_are_sorted_and_errors_kept() {
    let c = ctx();
    let records = vec![
        Some(row("2022-05-02T12:00:00Z", "60", "Paga", "X")),
        None,
        Some(row("2022-05-01T12:00:00Z", "50", "Paga", "X")),
        Some(row("2022-05-03T12:00:00Z", "oops", "Paga", "X")),
    ];
    let (sales, errs) = Sale::parse_csv(records, &c);
    assert_eq!(sales.len(), 2);
    assert_eq!(sales[0].value, 5000);
    assert_eq!(sales[1].value, 6000);
    assert_eq!(errs, vec![SaleError::Unreadable, SaleError::BadAmount]);
}

#[test]
fn a_ledger_is_built_sorted_and_settled_where_precise() {
    let c = ctx();
    let rows = vec![
        Some(row("2022-05-02T12:00:00Z", "70", "Paga", "X")),
        Some(row("2022-05-01T12:00:00Z", "60", "Paga", "X")),
    ];
    let (sales, _) = Sale::parse_csv(rows, &c);
    let sp = SalesPlus::from_sales(sales, c);
    assert_eq!(sp.sales.len(), 2);
    assert_eq!(sp.sales[0].sale.value, 6000);
    assert!(sp.sales[0].pricematch.is_some());
    assert!(sp.sales[1].pricematch.is_some());
}

#[test]
fn export_row_and_header() {
    let c = ctx();
    let s = Sale::try_from(&row("2022-05-01T12:00:00Z", "77.5", "Paga Físico", "Kiosk"), &c).unwrap();
    let sp = SalePlus::from_parts(s, d4csv::candidate::PricingCandidate::NoMatch);
    let line = sp.gen_better_csv_line();
    assert_eq!(line.len(), 15);
    assert_eq!(line[0], "2022-05-01 12:00:00 UTC");
    assert_eq!(line[3], "77.5");
    assert_eq!(line[4], "Paga Físico");
    assert_eq!(line[5], "Kiosk");
    assert_eq!(line[13], "não");
    assert_eq!(line[14], "TRAGÉDIA");
    let h = SalePlus::better_csv_header();
    assert_eq!(h.len(), 15);
    assert_eq!(h[14], "Decodificação de preço");
}

#[test]
fn ambiguous_decodings_are_joined() {
    let c = ctx();
    let s = Sale::try_from(&row("2022-05-01T12:00:00Z", "110", "Paga", "K"), &c).unwrap();
    let pc = d4csv::candidate::PricingCandidate::from_price(11000, &c);
    let sp = SalePlus::from_parts(s, pc);
    let line = sp.gen_better_csv_line();
    assert_eq!(line[13], "não");
    assert!(line[14].contains("  ou  "));
    assert!(line[14].contains("1x lote promocional (5000) + 1x 1º lote (6000) (combo promocional)"));
    assert!(line[14].contains("1x lote promocional (5000) + 1x 1º lote (6000) (virada de lote)"));
}

#[test]
fn loading_an_export_runs_the_solver() {
    let text = "h1,h2,h3,h4,h5,h6,h7,h8,h9,h10,h11,h12,h13\n\
2022-05-01T10:00:00Z,,,60,Paga,K,,,t,1,,,\n\
2022-05-01T11:00:00Z,,,120,Paga,K,,,t,2,,,\n\
bad,,,60,Paga,K,,,t,3,,,\n";
    let c = SalesContext::try_new((11, 10), vec![5000, 6000, 6000], None, AmbiguitySolver::SellerLookBehind).unwrap();
    let (sp, errs) = SalesPlus::try_load(text, c);
    assert_eq!(errs, vec![SaleError::BadDate]);
    assert_eq!(sp.sales.len(), 2);
    let report = ReportTemplate::default().compute(&sp);
    assert_eq!(report.sfields.len(), 6);
    assert_eq!(report.better_csv.len(), 2);
    assert_eq!(total_ok(&sp).0, "Vendas ok");
}

#[test]
fn tickets_are_counted() {
    let c = ctx();
    let rows = vec![Some(row("2022-05-01T12:00:00Z", "120", "Paga", "X"))];
    let (sales, _) = Sale::parse_csv(rows, &c);
    let sp = SalesPlus::from_sales(sales, c);
    assert_eq!(total_tickets(&sp).1, "2");
    assert_eq!(total_ok(&sp).1, "1 (100%)");
}

#[test]
fn context_configuration() {
    assert!(matches!(
        SalesContext::try_new((0, 10), vec![1], None, AmbiguitySolver::DoNothing),
        Err(ContextError::ZeroFee)
    ));
    let c = SalesContext::try_new((11, 10), vec![1], Some(0), AmbiguitySolver::DoNothing).unwrap();
    assert_eq!(c.promo_limit, None);
    assert_eq!(parse_prices("55;65;77.5"), Some(vec![5500, 6500, 7750]));
    assert_eq!(parse_prices("55;x"), None);
    assert!(matches!(
        SalesContext::from_config((11, 10), "55;;65", None, AmbiguitySolver::DoNothing),
        Err(ContextError::BadPrice)
    ));
    let ok = SalesContext::from_config((11, 10), "55;0.29", Some(0), AmbiguitySolver::TemporalLookbehind).unwrap();
    assert_eq!(ok.batches.prices, vec![5500, 29]);
    assert_eq!(ok.promo_limit, None);
    assert_eq!(ok.solver, AmbiguitySolver::TemporalLookbehind);
    let d = SalesContext::default();
    assert_eq!(d.batches.prices, vec![5500, 6500, 7500, 8500]);
    assert_eq!(d.promo_limit, Some(1));
}

#[test]
fn fees_apply_and_undo() {
    assert_eq!(SaleKind::Online((11, 10)).apply_fee(6000), 6600);
    assert_eq!(SaleKind::Online((11, 10)).undo_fee(6600), 6000);
    assert_eq!(SaleKind::Offline.undo_fee(6600), 6600);
    assert_eq!(Seller::Online((11, 10)).apply_fee(1000), 1100);
    assert_eq!(Seller::Offline("K".to_string()).apply_fee(1000), 1000);
}
