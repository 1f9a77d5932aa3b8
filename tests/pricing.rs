use d4csv::batch::{iter2bp, Batch};
use d4csv::batchnum::BatchNum;
use d4csv::candidate::{PricingCandidate, PricingCandidateCache};
use d4csv::context::SalesContext;
use d4csv::ambiguity::AmbiguitySolver;
use d4csv::pricing::{BatchAmount, PricingMatch};

fn ctx(prices: Vec<usize>, promo_limit: Option<usize>) -> SalesContext {
    SalesContext {
        online_fee: (11, 10),
        batches: iter2bp(prices),
        promo_limit,
        solver: AmbiguitySolver::SellerLookBehind,
    }
}

fn promo(price: usize) -> Batch {
    Batch { num: BatchNum::Promo, price }
}

fn numbered(n: usize, price: usize) -> Batch {
    Batch { num: BatchNum::Numbered(n), price }
}

fn matches_of(c: &PricingCandidate) -> Vec<PricingMatch> {
    match c {
        PricingCandidate::Precise(m) => vec![*m],
        PricingCandidate::Ambiguous(v) => v.clone(),
        PricingCandidate::NoMatch => vec![],
    }
}

#[test]
fn single_batch_price_is_precise() {
    let c = ctx(vec![5000, 6000], None);
    let pc = PricingCandidate::from_price(6000, &c);
    match pc {
        PricingCandidate::Precise(m) => {
            assert_eq!(m, PricingMatch::Multiple(BatchAmount(numbered(1, 6000), 1)));
        }
        _ => panic!("expected a precise candidate"),
    }
}

#[test]
fn promo_and_first_batch_is_ambiguous_between_combo_and_turn() {
    let c = ctx(vec![5000, 6000], None);
    let pc = PricingCandidate::from_price(11000, &c);
    let ms = matches_of(&pc);
    assert!(matches!(pc, PricingCandidate::Ambiguous(_)));
    assert_eq!(ms.len(), 2);
    let a = BatchAmount(promo(5000), 1);
    let b = BatchAmount(numbered(1, 6000), 1);
    assert!(ms.contains(&PricingMatch::PromoCombo(a, b)));
    assert!(ms.contains(&PricingMatch::TurnOfBatch(a, b)));
}

#[test]
fn two_promos_are_precise() {
    let c = ctx(vec![5000, 6000], None);
    let pc = PricingCandidate::from_price(10000, &c);
    match pc {
        PricingCandidate::Precise(m) => {
            assert_eq!(m, PricingMatch::Multiple(BatchAmount(promo(5000), 2)));
        }
        _ => panic!("expected a precise candidate"),
    }
}

#[test]
fn every_enumerated_match_costs_the_price() {
    let c = ctx(vec![5500, 6500, 7500, 8500], None);
    for price in [5500usize, 13000, 14000, 26000, 30000, 1234] {
        for m in PricingMatch::all_priced(price, &c) {
            assert_eq!(m.price(), price);
        }
    }
}

#[test]
fn cache_gives_the_same_as_enumeration() {
    let c = ctx(vec![5500, 6500, 7500, 8500], Some(1));
    let mut cache = PricingCandidateCache::from_context(c.duplicate());
    for price in [26000usize, 14000, 26000, 5500, 14000] {
        let a = matches_of(&cache.from_price(price));
        let b = matches_of(&PricingCandidate::from_price(price, &c));
        assert_eq!(a.len(), b.len());
        for m in &a {
            assert!(b.contains(m));
        }
    }
}
