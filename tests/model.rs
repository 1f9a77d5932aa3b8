use d4csv::ambiguity::AmbiguitySolver;
use d4csv::batch::{iter2bp, Batch};
use d4csv::batchnum::BatchNum;
use d4csv::candidate::PricingCandidate;
use d4csv::context::SalesContext;
use d4csv::kind::SaleKind;
use d4csv::plus::{SalePlus, SalesPlus};
use d4csv::pricing::{ba_iter, ba_price, BatchAmount, PricingMatch};
use d4csv::report::{
    ambiguous_sales, evil_sales, online_tickets, sales_per_seller, total_sales, ReportTemplate,
};
use d4csv::sale::{Sale, SaleError, Timestamp};
use d4csv::text::cents_text;

fn b(n: usize, price: usize) -> Batch {
    Batch { num: BatchNum::from_index(n), price }
}

fn sale(secs: i64, value: usize, kind: SaleKind, seller: Option<&str>) -> Sale {
    Sale {
        when: Timestamp { secs, nanos: 0 },
        buyer_email: None,
        buyer_username: None,
        value,
        sale_kind: kind,
        seller_name: seller.map(|s| s.to_string()),
        seller_id: None,
        seller_email: None,
        token: "tok".to_string(),
        sale_id: "id".to_string(),
        card_name: None,
        card_pfx: None,
        card_sfx: None,
    }
}

#[test]
fn batch_numbers_order_promo_first() {
    assert_eq!(BatchNum::from_index(0), BatchNum::Promo);
    assert_eq!(BatchNum::from(3usize), BatchNum::Numbered(3));
    assert_eq!(BatchNum::Numbered(3).inum(), 3);
    assert_eq!(BatchNum::Promo.inum(), 0);
    assert!(BatchNum::Promo < BatchNum::Numbered(1));
    assert!(BatchNum::Numbered(1) < BatchNum::Numbered(2));
    assert!(BatchNum::Promo.le_exec(&BatchNum::Promo));
    assert!(!BatchNum::Numbered(2).le_exec(&BatchNum::Numbered(1)));
    assert_eq!(BatchNum::Promo.name(), "lote promocional");
    assert_eq!(BatchNum::Numbered(2).name(), "2º lote");
}

#[test]
fn catalog_lookups() {
    let bp = iter2bp(vec![5000, 6000, 7000]);
    assert_eq!(bp.len(), 3);
    assert_eq!(bp.get(BatchNum::Numbered(2)), Some(7000));
    assert_eq!(bp.get(BatchNum::Numbered(3)), None);
    assert_eq!(bp.get(BatchNum::Numbered(0)), None);
    assert_eq!(bp.min_price(), Some(5000));
    assert_eq!(iter2bp(vec![]).min_price(), None);
    assert_eq!(bp.bp2iter(), vec![b(0, 5000), b(1, 6000), b(2, 7000)]);
}

#[test]
fn amounts_and_matches() {
    let a = BatchAmount::from((b(1, 6000), 3));
    assert_eq!(ba_price(&a), 18000);
    assert_eq!(ba_iter(b(1, 6000), 2..5), vec![BatchAmount(b(1, 6000), 2), BatchAmount(b(1, 6000), 3), BatchAmount(b(1, 6000), 4)]);
    assert!(ba_iter(b(1, 6000), 5..2).is_empty());
    let t = PricingMatch::TurnOfBatch(BatchAmount(b(1, 6000), 2), BatchAmount(b(2, 7000), 1));
    assert_eq!(t.price(), 19000);
    assert_eq!(t.tickets(), 3);
    assert_eq!(t.batches(), vec![b(1, 6000), b(2, 7000)]);
    assert_eq!(t.batch_after(), b(2, 7000));
    let c = PricingMatch::PromoCombo(BatchAmount(b(0, 5000), 1), BatchAmount(b(1, 6000), 1));
    assert_eq!(c.batch_after(), b(1, 6000));
    let m = PricingMatch::Multiple(a);
    assert_eq!(m.batches(), vec![b(1, 6000)]);
    assert_eq!(m.batch_after(), b(1, 6000));
}

#[test]
fn batch_after_is_the_largest_batch() {
    let c = SalesContext::try_new((1, 1), vec![1000, 1500, 2000, 2500], None, AmbiguitySolver::DoNothing).unwrap();
    for price in [3500usize, 4000, 4500, 6000, 7500] {
        for m in PricingMatch::all_priced(price, &c) {
            let after = m.batch_after();
            let bs = m.batches();
            assert!(bs.contains(&after));
            for x in bs {
                assert!(x.num <= after.num);
            }
        }
    }
}

#[test]
fn enumeration_is_repeatable() {
    let c = SalesContext::default();
    let a = PricingMatch::all_priced(14000, &c);
    let _ = PricingMatch::all_priced(26000, &c);
    let b = PricingMatch::all_priced(14000, &c);
    assert_eq!(a, b);
    assert!(!a.is_empty());
}

#[test]
fn promo_limit_bounds_promotional_tickets() {
    let limited = SalesContext::try_new((1, 1), vec![1000, 3000], Some(1), AmbiguitySolver::DoNothing).unwrap();
    let open = SalesContext::try_new((1, 1), vec![1000, 3000], None, AmbiguitySolver::DoNothing).unwrap();
    let combo2 = PricingMatch::PromoCombo(BatchAmount(b(0, 1000), 2), BatchAmount(b(1, 3000), 1));
    assert!(!PricingMatch::all_priced(5000, &limited).contains(&combo2));
    assert!(PricingMatch::all_priced(5000, &open).contains(&combo2));
}

#[test]
fn empty_catalog_matches_nothing() {
    let c = SalesContext::try_new((1, 1), vec![], None, AmbiguitySolver::DoNothing).unwrap();
    assert!(PricingMatch::all_priced(5000, &c).is_empty());
    assert!(matches!(PricingCandidate::from_price(5000, &c), PricingCandidate::NoMatch));
}

#[test]
fn collapse_removes_repeats() {
    let m = PricingMatch::Multiple(BatchAmount(b(1, 6000), 1));
    let n = PricingMatch::Multiple(BatchAmount(b(2, 6000), 1));
    assert!(matches!(PricingCandidate::from_matches(vec![m, m]), PricingCandidate::Precise(x) if x == m));
    assert!(matches!(PricingCandidate::from_matches(vec![]), PricingCandidate::NoMatch));
    match PricingCandidate::from_matches(vec![m, n, m]) {
        PricingCandidate::Ambiguous(v) => assert_eq!(v, vec![m, n]),
        _ => panic!("expected an ambiguity"),
    }
}

#[test]
fn descriptions() {
    let m = PricingMatch::Multiple(BatchAmount(b(1, 6000), 2));
    assert_eq!(m.describe(), "2x 1º lote (6000)");
    let t = PricingMatch::TurnOfBatch(BatchAmount(b(1, 6000), 1), BatchAmount(b(2, 7000), 1));
    assert_eq!(t.describe(), "1x 1º lote (6000) + 1x 2º lote (7000) (virada de lote)");
    let c = PricingMatch::PromoCombo(BatchAmount(b(0, 5000), 1), BatchAmount(b(1, 6000), 1));
    assert_eq!(c.describe(), "1x lote promocional (5000) + 1x 1º lote (6000) (combo promocional)");
    assert_ne!(c.describe(), PricingMatch::TurnOfBatch(BatchAmount(b(0, 5000), 1), BatchAmount(b(1, 6000), 1)).describe());
}

#[test]
fn money_text() {
    assert_eq!(cents_text(5500), "55");
    assert_eq!(cents_text(7750), "77.5");
    assert_eq!(cents_text(5505), "55.05");
    assert_eq!(cents_text(7), "0.07");
}

#[test]
fn dates_compare_and_parse() {
    let a = Timestamp::parse("2022-05-01T12:00:00Z").unwrap();
    let b2 = Timestamp::parse("2022-05-01T09:00:00-03:00").unwrap();
    assert_eq!(a, b2);
    assert_eq!(Timestamp::parse("2022-05-01T12:00:00.5Z").unwrap().nanos, 500_000_000);
    assert_eq!(Timestamp::parse("May 1st"), None);
    let s1 = sale(1, 100, SaleKind::Offline, None);
    let s2 = sale(2, 100, SaleKind::Offline, None);
    assert_eq!(s1.cmp_dates(&s2), std::cmp::Ordering::Less);
    assert_eq!(s2.cmp_dates(&s1), std::cmp::Ordering::Greater);
    assert_eq!(s1.cmp_dates(&s1), std::cmp::Ordering::Equal);
    assert_eq!(Timestamp { secs: 0, nanos: 0 }.to_text(), "1970-01-01 00:00:00 UTC");
}

#[test]
fn sellers_of_sales() {
    assert!(sale(1, 1, SaleKind::Offline, None).seller().is_none());
    let on = sale(1, 1, SaleKind::Online((11, 10)), Some("X")).seller().unwrap();
    assert!(on.same_as(&d4csv::kind::Seller::Online));
    let off = sale(1, 1, SaleKind::Offline, Some("K")).seller().unwrap();
    assert!(off.same_as(&d4csv::kind::Seller::Offline("K".to_string())));
    assert!(!off.same_as(&d4csv::kind::Seller::Offline("L".to_string())));
    assert_eq!(SaleKind::Offline.label(), "Paga Físico");
}

#[test]
fn report_figures() {
    let one = PricingMatch::Multiple(BatchAmount(b(1, 6000), 1));
    let two = PricingMatch::Multiple(BatchAmount(b(1, 6000), 2));
    let sales = vec![
        SalePlus::from((sale(1, 6600, SaleKind::Online((11, 10)), None), PricingCandidate::Precise(one))),
        SalePlus::from((sale(2, 12000, SaleKind::Offline, Some("K")), PricingCandidate::Precise(two))),
        SalePlus::from((sale(3, 6000, SaleKind::Offline, Some("K")), PricingCandidate::Precise(one))),
        SalePlus::from((sale(4, 1, SaleKind::Offline, Some("L")), PricingCandidate::NoMatch)),
        SalePlus::from((sale(5, 1, SaleKind::Offline, Some("L")), PricingCandidate::Ambiguous(vec![one, two]))),
    ];
    let sp = SalesPlus { sales, context: SalesContext::default() };
    assert_eq!(total_sales(&sp).1, "5");
    assert_eq!(online_tickets(&sp).1, "1");
    assert_eq!(ambiguous_sales(&sp).1, "1");
    assert_eq!(evil_sales(&sp).1, "1");
    assert_eq!(d4csv::report::total_ok(&sp).1, "3 (60%)");
    let t = sales_per_seller(&sp);
    assert_eq!(t.1, vec![("K".to_string(), "3".to_string())]);
    let r = ReportTemplate::default().compute(&sp);
    let text = r.make_csv_txt();
    assert!(text.starts_with("DataCompra,EmailUsuarioAssociado,"));
    assert_eq!(text.lines().count(), 6);
    assert!(text.contains("1x 1º lote (6000)  ou  2x 1º lote (6000)"));
}

#[test]
fn unpriceable_sales_are_reported() {
    let text = "h1,h2,h3,h4,h5,h6,h7,h8,h9,h10,h11,h12,h13\n\
2022-05-01T10:00:00Z,,,100000000000000000,Paga Online,,,,t,1,,,\n\
2022-05-01T11:00:00Z,,,66,Paga Online,,,,t,2,,,\n";
    let c = SalesContext::try_new((11, 10), vec![5000, 6000], None, AmbiguitySolver::SellerLookBehind).unwrap();
    let (sp, errs) = SalesPlus::try_load(text, c);
    assert_eq!(errs, vec![SaleError::Unpriceable]);
    assert_eq!(sp.sales.len(), 1);
    assert_eq!(sp.sales[0].sale.real_price(), 6000);
}

#[test]
fn descriptions_read_back() {
    let ms = vec![
        PricingMatch::Multiple(BatchAmount(b(1, 6000), 2)),
        PricingMatch::Multiple(BatchAmount(b(0, 5000), 12)),
        PricingMatch::TurnOfBatch(BatchAmount(b(1, 6000), 1), BatchAmount(b(2, 7000), 10)),
        PricingMatch::PromoCombo(BatchAmount(b(0, 5000), 1), BatchAmount(b(1, 6000), 1)),
        PricingMatch::TurnOfBatch(BatchAmount(b(0, 5000), 1), BatchAmount(b(1, 6000), 1)),
    ];
    for m in ms {
        let d = m.describe();
        assert_eq!(PricingMatch::parse(&d), Some(m));
    }
    assert_eq!(PricingMatch::parse("2x 1º lote (6000) + "), None);
    assert_eq!(PricingMatch::parse("02x 1º lote (6000)"), None);
    assert_eq!(PricingMatch::parse("TRAGÉDIA"), None);
    assert_eq!(PricingMatch::parse(""), None);
}

#[test]
fn settled_decoding_reads_back_to_its_match() {
    let m = PricingMatch::Multiple(BatchAmount(b(1, 6000), 2));
    let sp = SalePlus::from((sale(1, 12000, SaleKind::Offline, Some("K")), PricingCandidate::Precise(m)));
    let line = sp.gen_better_csv_line();
    assert_eq!(line[13], "sim");
    assert_eq!(PricingMatch::parse(&line[14]), Some(m));
}
