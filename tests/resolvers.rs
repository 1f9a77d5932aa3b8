use d4csv::ambiguity::{seller_lookbehind, temporal_lookbehind, AmbiguitySolver};
use d4csv::batch::{iter2bp, Batch};
use d4csv::batchnum::BatchNum;
use d4csv::candidate::PricingCandidate;
use d4csv::context::SalesContext;
use d4csv::kind::SaleKind;
use d4csv::plus::{SalePlus, SalesPlus};
use d4csv::pricing::{BatchAmount, PricingMatch};
use d4csv::sale::{Sale, Timestamp};

fn sale(secs: i64, kind: SaleKind, seller: Option<&str>) -> Sale {
    Sale {
        when: Timestamp { secs, nanos: 0 },
        buyer_email: None,
        buyer_username: None,
        value: 6000,
        sale_kind: kind,
        seller_name: seller.map(|s| s.to_string()),
        seller_id: None,
        seller_email: None,
        token: "t".to_string(),
        sale_id: format!("id{}", secs),
        card_name: None,
        card_pfx: None,
        card_sfx: None,
    }
}

fn single(n: usize) -> PricingMatch {
    PricingMatch::Multiple(BatchAmount(Batch { num: BatchNum::Numbered(n), price: 6000 }, 1))
}

fn settled(s: Sale, m: PricingMatch) -> SalePlus {
    SalePlus::from_parts(s, PricingCandidate::Precise(m))
}

fn ambiguous(s: Sale, ms: Vec<PricingMatch>) -> SalePlus {
    SalePlus::from_parts(s, PricingCandidate::Ambiguous(ms))
}

fn ledger(sales: Vec<SalePlus>, solver: AmbiguitySolver) -> SalesPlus {
    SalesPlus {
        sales,
        context: SalesContext {
            online_fee: (11, 10),
            batches: iter2bp(vec![5000, 6000, 6000, 6000]),
            promo_limit: None,
            solver,
        },
    }
}

#[test]
fn temporal_follows_the_current_batch() {
    let mut sp = ledger(
        vec![
            settled(sale(1, SaleKind::Offline, Some("A")), single(2)),
            ambiguous(sale(2, SaleKind::Offline, Some("A")), vec![single(2), single(3)]),
        ],
        AmbiguitySolver::TemporalLookbehind,
    );
    assert_eq!(temporal_lookbehind(&mut sp), 1);
    assert_eq!(sp.sales[1].pricematch, Some(single(2)));
}

#[test]
fn temporal_narrows_without_settling() {
    let turn = PricingMatch::TurnOfBatch(
        BatchAmount(Batch { num: BatchNum::Numbered(1), price: 3000 }, 1),
        BatchAmount(Batch { num: BatchNum::Numbered(2), price: 6000 }, 1),
    );
    let mut sp = ledger(
        vec![
            settled(sale(1, SaleKind::Offline, None), single(2)),
            ambiguous(sale(2, SaleKind::Offline, None), vec![single(2), turn, single(3)]),
        ],
        AmbiguitySolver::TemporalLookbehind,
    );
    assert_eq!(temporal_lookbehind(&mut sp), 0);
    assert_eq!(sp.sales[1].pricematch, None);
    match &sp.sales[1].pricecand {
        PricingCandidate::Ambiguous(v) => assert_eq!(v, &vec![single(2), turn]),
        _ => panic!("expected the ambiguity to stay"),
    }
}

#[test]
fn seller_uses_its_own_history() {
    let sales = vec![
        settled(sale(1, SaleKind::Offline, Some("Kiosk-A")), single(1)),
        settled(sale(2, SaleKind::Offline, Some("Kiosk-B")), single(2)),
        ambiguous(sale(3, SaleKind::Offline, Some("Kiosk-A")), vec![single(1), single(2)]),
    ];
    let mut sp = ledger(sales, AmbiguitySolver::SellerLookBehind);
    assert_eq!(seller_lookbehind(&mut sp), 1);
    assert_eq!(sp.sales[2].pricematch, Some(single(1)));
    assert!(matches!(sp.sales[2].pricecand, PricingCandidate::Precise(m) if m == single(1)));
}

#[test]
fn temporal_would_follow_the_other_seller() {
    let sales = vec![
        settled(sale(1, SaleKind::Offline, Some("Kiosk-A")), single(1)),
        settled(sale(2, SaleKind::Offline, Some("Kiosk-B")), single(2)),
        ambiguous(sale(3, SaleKind::Offline, Some("Kiosk-A")), vec![single(1), single(2)]),
    ];
    let mut sp = ledger(sales, AmbiguitySolver::TemporalLookbehind);
    assert_eq!(temporal_lookbehind(&mut sp), 1);
    assert_eq!(sp.sales[2].pricematch, Some(single(2)));
}

#[test]
fn seller_prefers_no_new_batch() {
    let turn = PricingMatch::TurnOfBatch(
        BatchAmount(Batch { num: BatchNum::Numbered(1), price: 6000 }, 1),
        BatchAmount(Batch { num: BatchNum::Numbered(2), price: 6000 }, 1),
    );
    let two = PricingMatch::Multiple(BatchAmount(Batch { num: BatchNum::Numbered(1), price: 6000 }, 2));
    let sales = vec![
        settled(sale(1, SaleKind::Online((11, 10)), None), single(1)),
        ambiguous(sale(2, SaleKind::Online((11, 10)), None), vec![turn, two]),
    ];
    let mut sp = ledger(sales, AmbiguitySolver::SellerLookBehind);
    assert_eq!(seller_lookbehind(&mut sp), 1);
    assert_eq!(sp.sales[1].pricematch, Some(two));
}

#[test]
fn unnamed_offline_sales_are_left_alone() {
    let sales = vec![
        settled(sale(1, SaleKind::Offline, None), single(1)),
        ambiguous(sale(2, SaleKind::Offline, None), vec![single(1), single(2)]),
    ];
    let mut sp = ledger(sales, AmbiguitySolver::SellerLookBehind);
    assert_eq!(seller_lookbehind(&mut sp), 0);
    assert_eq!(sp.sales[1].pricematch, None);
}

#[test]
fn no_ambiguity_means_no_change() {
    for solver in AmbiguitySolver::available() {
        let sales = vec![
            settled(sale(1, SaleKind::Offline, Some("A")), single(1)),
            SalePlus::from_parts(sale(2, SaleKind::Offline, Some("A")), PricingCandidate::NoMatch),
            settled(sale(3, SaleKind::Online((11, 10)), None), single(2)),
        ];
        let mut sp = ledger(sales, solver);
        assert_eq!(solver.apply(&mut sp), 0);
        assert_eq!(sp.sales[0].pricematch, Some(single(1)));
        assert_eq!(sp.sales[1].pricematch, None);
        assert!(matches!(sp.sales[1].pricecand, PricingCandidate::NoMatch));
        assert_eq!(sp.sales[2].pricematch, Some(single(2)));
    }
}

#[test]
fn driver_runs_to_a_fixpoint() {
    let sales = vec![
        settled(sale(1, SaleKind::Offline, Some("A")), single(2)),
        ambiguous(sale(2, SaleKind::Offline, Some("A")), vec![single(2), single(3)]),
        ambiguous(sale(3, SaleKind::Offline, Some("A")), vec![single(2), single(3)]),
    ];
    let mut sp = ledger(sales, AmbiguitySolver::TemporalLookbehind);
    let (passes, total) = sp.solve_ambiguities();
    assert_eq!(total, 2);
    assert!(passes >= 1 && passes <= 2);
    assert_eq!(sp.sales[1].pricematch, Some(single(2)));
    assert_eq!(sp.sales[2].pricematch, Some(single(2)));
    assert_eq!(sp.oks(), vec![0, 1, 2]);
    assert_eq!(sp.ambiguous(), vec![1, 2]);
}

#[test]
fn do_nothing_settles_nothing() {
    let sales = vec![
        settled(sale(1, SaleKind::Offline, Some("A")), single(2)),
        ambiguous(sale(2, SaleKind::Offline, Some("A")), vec![single(2), single(3)]),
    ];
    let mut sp = ledger(sales, AmbiguitySolver::DoNothing);
    assert_eq!(sp.solve_ambiguities(), (0, 0));
    assert_eq!(sp.sales[1].pricematch, None);
}

#[test]
fn solver_names_round_trip() {
    for s in AmbiguitySolver::available() {
        assert_eq!(AmbiguitySolver::try_from(s.name()), Ok(s));
    }
    assert_eq!(AmbiguitySolver::try_from("TEMPORAL"), Ok(AmbiguitySolver::TemporalLookbehind));
    assert_eq!(AmbiguitySolver::try_from("Seller"), Ok(AmbiguitySolver::SellerLookBehind));
    assert_eq!(AmbiguitySolver::try_from("other"), Err(()));
    assert_eq!(AmbiguitySolver::try_from("None"), Ok(AmbiguitySolver::DoNothing));
    assert_eq!(AmbiguitySolver::try_from("nothing"), Err(()));
    assert_eq!(AmbiguitySolver::DoNothing.name(), "none");
    assert_eq!(AmbiguitySolver::default(), AmbiguitySolver::SellerLookBehind);
}
