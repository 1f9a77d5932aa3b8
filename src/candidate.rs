//! The outcome of enumeration for one amount, and its per-run cache.

use vstd::prelude::*;
use vstd::hash_map::HashMapWithView;
use crate::pricing::{PricingMatch, is_candidate};
use crate::context::SalesContext;

verus! {

broadcast use vstd::std_specs::hash::axiom_usize_obeys_hash_table_key_model;

/// The elements of a sequence of matches, as a set.
pub open spec fn seq_set(s: Seq<PricingMatch>) -> Set<PricingMatch> {
    Set::new(|m: PricingMatch| s.contains(m))
}

/// Every match that enumeration yields for `price` under a catalog and a promo limit.
pub open spec fn candidate_set(price: usize, prices: Seq<usize>, limit: Option<usize>) -> Set<PricingMatch> {
    Set::new(|m: PricingMatch| is_candidate(m, price, prices, limit))
}

/// All possible matches for a given price.
#[derive(Debug)]
pub enum PricingCandidate {
    /// Exactly one match.
    Precise(PricingMatch),
    /// Two or more distinct matches.
    Ambiguous(Vec<PricingMatch>),
    /// No match at all.
    NoMatch,
}

impl View for PricingCandidate {
    type V = Seq<PricingMatch>;

    /// The matches of the candidate.
    open spec fn view(&self) -> Seq<PricingMatch> {
        match self {
            PricingCandidate::Precise(m) => seq![*m],
            PricingCandidate::Ambiguous(v) => v@,
            PricingCandidate::NoMatch => Seq::empty(),
        }
    }
}

impl PricingCandidate {
    /// An ambiguous candidate holds at least two distinct matches.
    pub open spec fn wf(&self) -> bool {
        match self {
            PricingCandidate::Ambiguous(v) => v@.len() >= 2 && v@.no_duplicates(),
            _ => true,
        }
    }

    /// The matches of the candidate, as a set.
    pub open spec fn set(&self) -> Set<PricingMatch> {
        seq_set(self@)
    }

    /// `self` lists the distinct matches of `s` once each, and its variant
    /// follows their number.
    pub open spec fn collapses(&self, s: Seq<PricingMatch>) -> bool {
        &&& self.wf()
        &&& self@.no_duplicates()
        &&& self.set() == seq_set(s)
        &&& (self@.len() == 0 <==> *self is NoMatch)
        &&& (self@.len() == 1 <==> *self is Precise)
        &&& (self@.len() >= 2 <==> *self is Ambiguous)
    }

    /// Collapses a list of matches by the number of distinct ones: none gives
    /// `NoMatch`, one gives `Precise`, more give `Ambiguous`.
    pub fn from_matches(v: Vec<PricingMatch>) -> (r: PricingCandidate)
        ensures
            r.collapses(v@),
    {
        let mut u: Vec<PricingMatch> = Vec::new();
        let mut i: usize = 0;
        while i < v.len()
            invariant
                i <= v@.len(),
                u@.no_duplicates(),
                forall|m: PricingMatch| #[trigger] u@.contains(m) <==> v@.subrange(0, i as int).contains(m),
            decreases v@.len() - i,
        {
            let m = v[i];
            let ghost pre = u@;
            proof {
                assert(v@.subrange(0, i + 1) =~= v@.subrange(0, i as int).push(m));
            }
            if !contains_match(&u, &m) {
                u.push(m);
                proof {
                    assert(u@ == pre.push(m));
                    assert forall|x: PricingMatch| #[trigger] u@.contains(x) <==> v@.subrange(0, i + 1).contains(x) by {
                        if x == m {
                            assert(u@[u@.len() - 1] == m);
                            assert(v@.subrange(0, i + 1)[i as int] == m);
                        } else {
                            if u@.contains(x) {
                                let k = choose|k: int| 0 <= k < u@.len() && u@[k] == x;
                                assert(pre[k] == x);
                            }
                            if pre.contains(x) {
                                let k = choose|k: int| 0 <= k < pre.len() && pre[k] == x;
                                assert(u@[k] == x);
                            }
                            if v@.subrange(0, i + 1).contains(x) {
                                let k = choose|k: int| 0 <= k < i + 1 && #[trigger] v@.subrange(0, i + 1)[k] == x;
                                assert(v@.subrange(0, i as int)[k] == x);
                            }
                        }
                    }
                }
            } else {
                proof {
                    assert forall|x: PricingMatch| #[trigger] u@.contains(x) <==> v@.subrange(0, i + 1).contains(x) by {
                        if v@.subrange(0, i + 1).contains(x) && x != m {
                            let k = choose|k: int| 0 <= k < i + 1 && #[trigger] v@.subrange(0, i + 1)[k] == x;
                            assert(v@.subrange(0, i as int)[k] == x);
                        }
                        if v@.subrange(0, i as int).contains(x) {
                            let k = choose|k: int| 0 <= k < i && #[trigger] v@.subrange(0, i as int)[k] == x;
                            assert(v@.subrange(0, i + 1)[k] == x);
                        }
                    }
                }
            }
            i = i + 1;
        }
        proof {
            assert(v@.subrange(0, v@.len() as int) =~= v@);
            assert(seq_set(u@) =~= seq_set(v@));
        }
        let r = if u.len() == 0 {
            PricingCandidate::NoMatch
        } else if u.len() == 1 {
            let m = u[0];
            proof {
                assert(seq_set(seq![m]) =~= seq_set(u@)) by {
                    assert forall|x: PricingMatch| seq![m].contains(x) <==> u@.contains(x) by {
                        if u@.contains(x) {
                            let k = choose|k: int| 0 <= k < u@.len() && u@[k] == x;
                        }
                        if x == m {
                            assert(seq![m][0] == x);
                        }
                    }
                }
            }
            PricingCandidate::Precise(m)
        } else {
            PricingCandidate::Ambiguous(u)
        };
        assert(r@ =~= u@);
        r
    }

    /// The candidate for a price: enumeration, collapsed by the number of matches.
    pub fn from_price(price: usize, ctx: &SalesContext) -> (r: PricingCandidate)
        ensures
            r.collapses(r@),
            r.set() == candidate_set(price, ctx.batches@, ctx.promo_limit),
    {
        let v = PricingMatch::all_priced(price, ctx);
        let r = PricingCandidate::from_matches(v);
        proof {
            assert(seq_set(v@) =~= candidate_set(price, ctx.batches@, ctx.promo_limit));
        }
        r
    }

    /// A copy of the candidate.
    pub fn duplicate(&self) -> (r: PricingCandidate)
        ensures
            r@ == self@,
            r.wf() == self.wf(),
            r is Precise == self is Precise,
            r is Ambiguous == self is Ambiguous,
            r is NoMatch == self is NoMatch,
    {
        match self {
            PricingCandidate::Precise(m) => PricingCandidate::Precise(*m),
            PricingCandidate::Ambiguous(v) => PricingCandidate::Ambiguous(copy_matches(v)),
            PricingCandidate::NoMatch => PricingCandidate::NoMatch,
        }
    }
}

/// Whether `m` is in `v`.
pub fn contains_match(v: &Vec<PricingMatch>, m: &PricingMatch) -> (r: bool)
    ensures
        r == v@.contains(*m),
{
    let mut i: usize = 0;
    while i < v.len()
        invariant
            i <= v@.len(),
            forall|k: int| 0 <= k < i ==> v@[k] != *m,
        decreases v@.len() - i,
    {
        if v[i] == *m {
            return true;
        }
        i = i + 1;
    }
    false
}

/// A copy of a list of matches.
pub fn copy_matches(v: &Vec<PricingMatch>) -> (r: Vec<PricingMatch>)
    ensures
        r@ == v@,
{
    let mut u: Vec<PricingMatch> = Vec::new();
    let mut i: usize = 0;
    while i < v.len()
        invariant
            i <= v@.len(),
            u@ == v@.subrange(0, i as int),
        decreases v@.len() - i,
    {
        u.push(v[i]);
        i = i + 1;
    }
    assert(u@ =~= v@);
    u
}

/// Remembers the candidate of each price met during one run, so that each
/// price is enumerated once.
pub struct PricingCandidateCache {
    store: HashMapWithView<usize, PricingCandidate>,
    ctx: SalesContext,
}

impl PricingCandidateCache {
    /// The catalog the cache enumerates against.
    pub closed spec fn prices(&self) -> Seq<usize> {
        self.ctx.batches@
    }

    /// The promo limit the cache enumerates with.
    pub closed spec fn limit(&self) -> Option<usize> {
        self.ctx.promo_limit
    }

    /// The prices whose candidates are stored.
    pub closed spec fn cached(&self) -> Set<usize> {
        self.store@.dom()
    }

    /// Every stored candidate is the collapsed enumeration of its price.
    pub closed spec fn wf(&self) -> bool {
        forall|k: usize| #[trigger] self.store@.contains_key(k) ==> self.store@[k].collapses(self.store@[k]@)
            && self.store@[k].set() == candidate_set(k, self.prices(), self.limit())
    }

    /// An empty cache for a context.
    pub fn from_context(ctx: SalesContext) -> (r: PricingCandidateCache)
        ensures
            r.wf(),
            r.prices() == ctx.batches@,
            r.limit() == ctx.promo_limit,
            r.cached() == Set::<usize>::empty(),
    {
        let r = PricingCandidateCache { store: HashMapWithView::new(), ctx };
        assert(r.cached() =~= Set::<usize>::empty());
        r
    }

    /// The candidate of a price, enumerated on first request and remembered.
    pub fn from_price(&mut self, price: usize) -> (r: PricingCandidate)
        requires
            old(self).wf(),
        ensures
            final(self).wf(),
            final(self).prices() == old(self).prices(),
            final(self).limit() == old(self).limit(),
            final(self).cached() == old(self).cached().insert(price),
            r.collapses(r@),
            r.set() == candidate_set(price, old(self).prices(), old(self).limit()),
    {
        match self.store.get(&price) {
            Some(pc) => {
                let r = pc.duplicate();
                proof {
                    assert(self.cached() =~= self.cached().insert(price));
                    assert(seq_set(r@) == seq_set(pc@));
                }
                r
            },
            None => {
                let pc = PricingCandidate::from_price(price, &self.ctx);
                let r = pc.duplicate();
                self.store.insert(price, pc);
                proof {
                    assert(self.cached() =~= old(self).cached().insert(price));
                    assert(seq_set(r@) == seq_set(pc@));
                }
                r
            },
        }
    }
}

/// The candidate of a price is the same however it was obtained (directly, or
/// from a cache whatever it held): two collapsed candidates with the matches of
/// the same price have the same matches, as many of them, and the same variant.
pub proof fn lemma_candidate_deterministic(
    c1: PricingCandidate,
    c2: PricingCandidate,
    price: usize,
    prices: Seq<usize>,
    limit: Option<usize>,
)
    requires
        c1.collapses(c1@),
        c2.collapses(c2@),
        c1.set() == candidate_set(price, prices, limit),
        c2.set() == candidate_set(price, prices, limit),
    ensures
        c1.set() == c2.set(),
        c1@.len() == c2@.len(),
        c1 is Precise <==> c2 is Precise,
        c1 is Ambiguous <==> c2 is Ambiguous,
        c1 is NoMatch <==> c2 is NoMatch,
{
    c1@.unique_seq_to_set();
    c2@.unique_seq_to_set();
    assert(c1@.to_set() =~= c1.set());
    assert(c2@.to_set() =~= c2.set());
}

} // verus!
