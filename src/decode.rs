//! Reading back the description of a pricing match, as found in the
//! decoding column of the enriched export.

use vstd::prelude::*;
use crate::batch::Batch;
use crate::batchnum::BatchNum;
use crate::fields::{chars_of, digits_in, same_chars};
use crate::pricing::{BatchAmount, PricingMatch, amount_desc, pair_suffix};
use crate::text::{decimal_spec, is_digit_char, lemma_decimal_digits};

verus! {

/// `t` is written in `cs` from position `pos` on.
pub open spec fn written_at(cs: Seq<char>, pos: int, t: Seq<char>) -> bool {
    0 <= pos && pos + t.len() <= cs.len() && cs.subrange(pos, pos + t.len()) == t
}

/// What is written is written piece by piece.
proof fn lemma_written_concat(cs: Seq<char>, pos: int, x: Seq<char>, y: Seq<char>)
    requires
        written_at(cs, pos, x + y),
    ensures
        written_at(cs, pos, x),
        written_at(cs, pos + x.len(), y),
{
    let w = cs.subrange(pos, pos + (x + y).len());
    assert(w == x + y);
    assert(cs.subrange(pos, pos + x.len()) =~= w.subrange(0, x.len() as int));
    assert(w.subrange(0, x.len() as int) =~= x);
    assert(cs.subrange(pos + x.len(), pos + x.len() + y.len()) =~= w.subrange(x.len() as int, w.len() as int));
    assert(w.subrange(x.len() as int, w.len() as int) =~= y);
}

/// Where `t` is written, its characters are.
proof fn lemma_written_char(cs: Seq<char>, pos: int, t: Seq<char>, k: int)
    requires
        written_at(cs, pos, t),
        0 <= k < t.len(),
    ensures
        cs[pos + k] == t[k],
{
    assert(cs.subrange(pos, pos + t.len())[k] == t[k]);
}

/// The position after `t`, if `t` is written at `pos`.
fn expect(cs: &Vec<char>, pos: usize, t: &str) -> (r: Option<usize>)
    ensures
        r == (if written_at(cs@, pos as int, t@) { Some((pos + t@.len()) as usize) } else { None::<usize> }),
{
    let ts = chars_of(t);
    if pos > cs.len() || ts.len() > cs.len() - pos {
        return None;
    }
    let mut i: usize = 0;
    while i < ts.len()
        invariant
            ts@ == t@,
            pos + ts@.len() <= cs@.len(),
            i <= ts@.len(),
            forall|k: int| 0 <= k < i ==> cs@[pos + k] == ts@[k],
        decreases ts@.len() - i,
    {
        assert(pos + i < cs.len());
        if cs[pos + i] != ts[i] {
            proof {
                if written_at(cs@, pos as int, t@) {
                    lemma_written_char(cs@, pos as int, t@, i as int);
                }
            }
            return None;
        }
        i = i + 1;
    }
    assert(cs@.subrange(pos as int, pos + ts@.len()) =~= t@);
    Some(pos + ts.len())
}

/// `n` is written in decimal at `pos`, and no digit follows.
pub open spec fn number_at(cs: Seq<char>, pos: int, n: nat) -> bool {
    written_at(cs, pos, decimal_spec(n)) && (pos + decimal_spec(n).len() == cs.len() || !is_digit_char(
        cs[pos + decimal_spec(n).len()],
    ))
}

/// Reads the decimal number written at `pos`: its value and where it ends.
fn read_number(cs: &Vec<char>, pos: usize) -> (r: Option<(usize, usize)>)
    requires
        pos <= cs@.len(),
    ensures
        forall|n: usize| #[trigger] number_at(cs@, pos as int, n as nat) ==> r == Some(
            (n, (pos + decimal_spec(n as nat).len()) as usize),
        ),
{
    let mut end: usize = pos;
    while end < cs.len() && '0' <= cs[end] && cs[end] <= '9'
        invariant
            pos <= end <= cs@.len(),
            forall|k: int| pos <= k < end ==> is_digit_char(#[trigger] cs@[k]),
        decreases cs@.len() - end,
    {
        end = end + 1;
    }
    proof {
        assert forall|n: usize| #[trigger] number_at(cs@, pos as int, n as nat) implies end == pos + decimal_spec(
            n as nat,
        ).len() && cs@.subrange(pos as int, end as int) == decimal_spec(n as nat) by {
            let d = decimal_spec(n as nat);
            lemma_decimal_digits(n as nat);
            assert forall|k: int| 0 <= k < d.len() implies cs@[pos + k] == d[k] by {
                lemma_written_char(cs@, pos as int, d, k);
            }
            if end < pos + d.len() {
                assert(is_digit_char(d[end - pos]));
            }
            if end > pos + d.len() {
                assert(is_digit_char(cs@[pos + d.len()]));
            }
        }
    }
    if end == pos {
        return None;
    }
    match digits_in(cs, pos, end) {
        Some(v) => {
            proof {
                assert forall|n: usize| #[trigger] number_at(cs@, pos as int, n as nat) implies v == n by {
                    lemma_decimal_digits(n as nat);
                }
            }
            Some((v, end))
        },
        None => {
            proof {
                assert forall|n: usize| !#[trigger] number_at(cs@, pos as int, n as nat) by {
                    if number_at(cs@, pos as int, n as nat) {
                        lemma_decimal_digits(n as nat);
                        assert(cs@.subrange(pos as int, end as int) == decimal_spec(n as nat));
                    }
                }
            }
            None
        },
    }
}

/// The pieces of an amount's description, where it is written.
proof fn lemma_amount_parts(cs: Seq<char>, pos: int, a: BatchAmount)
    requires
        written_at(cs, pos, amount_desc(a)),
    ensures
        number_at(cs, pos, a.1 as nat),
        written_at(cs, pos + decimal_spec(a.1 as nat).len(), "x "@),
        ({
            let name_at = pos + decimal_spec(a.1 as nat).len() + 2;
            let open_at = name_at + a.0.num.name_spec().len();
            &&& match a.0.num {
                BatchNum::Promo => written_at(cs, name_at, "lote promocional"@) && !is_digit_char(cs[name_at]),
                BatchNum::Numbered(n) => number_at(cs, name_at, n as nat) && written_at(
                    cs,
                    name_at + decimal_spec(n as nat).len(),
                    "º lote"@,
                ) && is_digit_char(cs[name_at]) && name_at < cs.len(),
            }
            &&& written_at(cs, open_at, " ("@)
            &&& number_at(cs, open_at + 2, a.0.price as nat)
            &&& written_at(cs, open_at + 2 + decimal_spec(a.0.price as nat).len(), ")"@)
            &&& open_at + 2 + decimal_spec(a.0.price as nat).len() + 1 == pos + amount_desc(a).len()
        }),
{
    reveal_strlit("x ");
    reveal_strlit(" (");
    reveal_strlit(")");
    reveal_strlit("lote promocional");
    reveal_strlit("º lote");
    let dq = decimal_spec(a.1 as nat);
    let nm = a.0.num.name_spec();
    let dp = decimal_spec(a.0.price as nat);
    let x = "x "@;
    let o = " ("@;
    let c = ")"@;
    assert(amount_desc(a) == dq + x + nm + o + dp + c);
    lemma_written_concat(cs, pos, dq + x + nm + o + dp, c);
    lemma_written_concat(cs, pos, dq + x + nm + o, dp);
    lemma_written_concat(cs, pos, dq + x + nm, o);
    lemma_written_concat(cs, pos, dq + x, nm);
    lemma_written_concat(cs, pos, dq, x);
    lemma_written_char(cs, pos + dq.len(), x, 0);
    let name_at = pos + dq.len() + 2;
    let open_at = name_at + nm.len();
    lemma_written_char(cs, open_at + 2 + dp.len(), c, 0);
    match a.0.num {
        BatchNum::Promo => {
            lemma_written_char(cs, name_at, nm, 0);
        },
        BatchNum::Numbered(n) => {
            let dn = decimal_spec(n as nat);
            lemma_written_concat(cs, name_at, dn, "º lote"@);
            lemma_written_char(cs, name_at + dn.len(), "º lote"@, 0);
            lemma_decimal_digits(n as nat);
            lemma_written_char(cs, name_at, dn, 0);
        },
    }
}

/// Reads the description of an amount written at `pos`, and where it ends.
#[verifier::rlimit(100)]
#[verifier::spinoff_prover]
fn read_amount(cs: &Vec<char>, pos: usize) -> (r: Option<(BatchAmount, usize)>)
    requires
        pos <= cs@.len(),
    ensures
        forall|a: BatchAmount| #[trigger] written_at(cs@, pos as int, amount_desc(a)) ==> r == Some(
            (a, (pos + amount_desc(a).len()) as usize),
        ),
{
    assert(cs@.len() == cs.len());
    let (q, qty_end) = match read_number(cs, pos) {
        Some(x) => x,
        None => {
            proof {
                assert forall|a: BatchAmount| !#[trigger] written_at(cs@, pos as int, amount_desc(a)) by {
                    if written_at(cs@, pos as int, amount_desc(a)) {
                        lemma_amount_parts(cs@, pos as int, a);
                        reveal_strlit("x ");
                        reveal_strlit(" (");
                        reveal_strlit(")");
                        reveal_strlit("lote promocional");
                        reveal_strlit("º lote");
                    }
                }
            }
            return None;
        },
    };
    let name_at = match expect(cs, qty_end, "x ") {
        Some(p) => p,
        None => {
            proof {
                assert forall|a: BatchAmount| !#[trigger] written_at(cs@, pos as int, amount_desc(a)) by {
                    if written_at(cs@, pos as int, amount_desc(a)) {
                        lemma_amount_parts(cs@, pos as int, a);
                        reveal_strlit("x ");
                        reveal_strlit(" (");
                        reveal_strlit(")");
                        reveal_strlit("lote promocional");
                        reveal_strlit("º lote");
                    }
                }
            }
            return None;
        },
    };
    let digit_next = name_at < cs.len() && '0' <= cs[name_at] && cs[name_at] <= '9';
    let (num, open_at) = if digit_next {
        let (n, e) = match read_number(cs, name_at) {
            Some(x) => x,
            None => {
                proof {
                    assert forall|a: BatchAmount| !#[trigger] written_at(cs@, pos as int, amount_desc(a)) by {
                        if written_at(cs@, pos as int, amount_desc(a)) {
                            lemma_amount_parts(cs@, pos as int, a);
                            assert(q == a.1);
                            reveal_strlit("x ");
                            assert(name_at == pos + decimal_spec(a.1 as nat).len() + 2);
                            if let BatchNum::Numbered(k) = a.0.num {
                                assert(number_at(cs@, name_at as int, k as nat));
                            } else {
                                assert(is_digit_char(cs@[name_at as int]));
                            }
                        }
                    }
                }
                return None;
            },
        };
        match expect(cs, e, "º lote") {
            Some(p) => (BatchNum::Numbered(n), p),
            None => {
                proof {
                    assert forall|a: BatchAmount| !#[trigger] written_at(cs@, pos as int, amount_desc(a)) by {
                        if written_at(cs@, pos as int, amount_desc(a)) {
                            lemma_amount_parts(cs@, pos as int, a);
                            assert(q == a.1);
                            reveal_strlit("x ");
                            assert(name_at == pos + decimal_spec(a.1 as nat).len() + 2);
                            if let BatchNum::Numbered(k) = a.0.num {
                                assert(number_at(cs@, name_at as int, k as nat));
                            } else {
                                assert(is_digit_char(cs@[name_at as int]));
                            }
                        }
                    }
                }
                return None;
            },
        }
    } else {
        match expect(cs, name_at, "lote promocional") {
            Some(p) => (BatchNum::Promo, p),
            None => {
                proof {
                    assert forall|a: BatchAmount| !#[trigger] written_at(cs@, pos as int, amount_desc(a)) by {
                        if written_at(cs@, pos as int, amount_desc(a)) {
                            lemma_amount_parts(cs@, pos as int, a);
                            reveal_strlit("x ");
                            reveal_strlit(" (");
                            reveal_strlit(")");
                            reveal_strlit("lote promocional");
                            reveal_strlit("º lote");
                        }
                    }
                }
                return None;
            },
        }
    };
    let price_at = match expect(cs, open_at, " (") {
        Some(p) => p,
        None => {
            proof {
                assert forall|a: BatchAmount| !#[trigger] written_at(cs@, pos as int, amount_desc(a)) by {
                    if written_at(cs@, pos as int, amount_desc(a)) {
                        lemma_amount_parts(cs@, pos as int, a);
                        reveal_strlit("x ");
                        reveal_strlit(" (");
                        reveal_strlit(")");
                        reveal_strlit("lote promocional");
                        reveal_strlit("º lote");
                    }
                }
            }
            return None;
        },
    };
    let (price, price_end) = match read_number(cs, price_at) {
        Some(x) => x,
        None => {
            proof {
                assert forall|a: BatchAmount| !#[trigger] written_at(cs@, pos as int, amount_desc(a)) by {
                    if written_at(cs@, pos as int, amount_desc(a)) {
                        lemma_amount_parts(cs@, pos as int, a);
                        reveal_strlit("x ");
                        reveal_strlit(" (");
                        reveal_strlit(")");
                        reveal_strlit("lote promocional");
                        reveal_strlit("º lote");
                    }
                }
            }
            return None;
        },
    };
    let amount_end = match expect(cs, price_end, ")") {
        Some(p) => p,
        None => {
            proof {
                assert forall|a: BatchAmount| !#[trigger] written_at(cs@, pos as int, amount_desc(a)) by {
                    if written_at(cs@, pos as int, amount_desc(a)) {
                        lemma_amount_parts(cs@, pos as int, a);
                        reveal_strlit("x ");
                        reveal_strlit(" (");
                        reveal_strlit(")");
                        reveal_strlit("lote promocional");
                        reveal_strlit("º lote");
                    }
                }
            }
            return None;
        },
    };
    let a = BatchAmount(Batch { num, price }, q);
    proof {
        assert forall|b: BatchAmount| #[trigger] written_at(cs@, pos as int, amount_desc(b)) implies a == b && amount_end == pos
            + amount_desc(b).len() by {
            lemma_amount_parts(cs@, pos as int, b);
            reveal_strlit("x ");
            reveal_strlit(" (");
            reveal_strlit(")");
            reveal_strlit("lote promocional");
            reveal_strlit("º lote");
            assert(q == b.1);
            assert(name_at == pos + decimal_spec(b.1 as nat).len() + 2);
            match b.0.num {
                BatchNum::Numbered(k) => {
                    assert(digit_next);
                    assert(number_at(cs@, name_at as int, k as nat));
                    assert(num == b.0.num);
                },
                BatchNum::Promo => {
                    assert(!digit_next);
                    assert(num == b.0.num);
                },
            }
            assert(open_at == name_at + b.0.num.name_spec().len());
            assert(price == b.0.price);
        }
    }
    Some((a, amount_end))
}

impl PricingMatch {
    /// Reads a match back from its description; `None` when the text is the
    /// description of no match.
    pub fn parse(s: &str) -> (r: Option<PricingMatch>)
        ensures
            r matches Some(m) ==> m.desc() == s@,
            forall|m: PricingMatch| #[trigger] m.desc() == s@ ==> r == Some(m),
    {
        let cs = chars_of(s);
        let n = cs.len();
        let (a, e) = match read_amount(&cs, 0) {
            Some(x) => x,
            None => {
                proof {
                    assert forall|m: PricingMatch| #[trigger] m.desc() != s@ by {
                        if m.desc() == s@ {
                            lemma_desc_start(cs@, m);
                        }
                    }
                }
                return None;
            },
        };
        let cand = if e == n {
            PricingMatch::Multiple(a)
        } else {
            let second_at = match expect(&cs, e, " + ") {
                Some(p) => p,
                None => {
                    proof {
                        assert forall|m: PricingMatch| #[trigger] m.desc() != s@ by {
                            if m.desc() == s@ {
                                lemma_desc_start(cs@, m);
                            }
                        }
                    }
                    return None;
                },
            };
            let (b, second_end) = match read_amount(&cs, second_at) {
                Some(x) => x,
                None => {
                    proof {
                        assert forall|m: PricingMatch| #[trigger] m.desc() != s@ by {
                            if m.desc() == s@ {
                                lemma_desc_start(cs@, m);
                            }
                        }
                    }
                    return None;
                },
            };
            if expect(&cs, second_end, " (combo promocional)") == Some(n) {
                PricingMatch::PromoCombo(a, b)
            } else {
                PricingMatch::TurnOfBatch(a, b)
            }
        };
        let written = cand.describe();
        let ws = chars_of(written.as_str());
        if same_chars(&ws, &cs) {
            proof {
                assert forall|m: PricingMatch| #[trigger] m.desc() == s@ implies cand == m by {
                    crate::pricing::lemma_desc_injective(m, cand);
                }
            }
            Some(cand)
        } else {
            proof {
                assert forall|m: PricingMatch| #[trigger] m.desc() != s@ by {
                    if m.desc() == s@ {
                        lemma_desc_start(cs@, m);
                        reveal_strlit(" + ");
                        reveal_strlit(" (combo promocional)");
                        reveal_strlit(" (virada de lote)");
                    }
                }
            }
            None
        }
    }
}

/// The first amount of a description is written at its start, and a second
/// one, if any, after `" + "`.
proof fn lemma_desc_start(cs: Seq<char>, m: PricingMatch)
    requires
        m.desc() == cs,
    ensures
        match m {
            PricingMatch::Multiple(a) => written_at(cs, 0, amount_desc(a)) && amount_desc(a).len() == cs.len(),
            PricingMatch::PromoCombo(a, b) => written_at(cs, 0, amount_desc(a)) && written_at(
                cs,
                amount_desc(a).len() as int,
                " + "@,
            ) && written_at(cs, (amount_desc(a).len() + 3) as int, amount_desc(b)) && written_at(
                cs,
                (amount_desc(a).len() + 3 + amount_desc(b).len()) as int,
                pair_suffix(false),
            ) && amount_desc(a).len() + 3 + amount_desc(b).len() + pair_suffix(false).len() == cs.len(),
            PricingMatch::TurnOfBatch(a, b) => written_at(cs, 0, amount_desc(a)) && written_at(
                cs,
                amount_desc(a).len() as int,
                " + "@,
            ) && written_at(cs, (amount_desc(a).len() + 3) as int, amount_desc(b)) && written_at(
                cs,
                (amount_desc(a).len() + 3 + amount_desc(b).len()) as int,
                pair_suffix(true),
            ) && amount_desc(a).len() + 3 + amount_desc(b).len() + pair_suffix(true).len() == cs.len(),
        },
{
    reveal_strlit(" + ");
    assert(cs.subrange(0, cs.len() as int) =~= cs);
    match m {
        PricingMatch::Multiple(a) => {},
        PricingMatch::PromoCombo(a, b) => {
            let t = pair_suffix(false);
            lemma_written_concat(cs, 0, amount_desc(a), " + "@ + (amount_desc(b) + t));
            lemma_written_concat(cs, amount_desc(a).len() as int, " + "@, amount_desc(b) + t);
            lemma_written_concat(cs, (amount_desc(a).len() + 3) as int, amount_desc(b), t);
        },
        PricingMatch::TurnOfBatch(a, b) => {
            let t = pair_suffix(true);
            lemma_written_concat(cs, 0, amount_desc(a), " + "@ + (amount_desc(b) + t));
            lemma_written_concat(cs, amount_desc(a).len() as int, " + "@, amount_desc(b) + t);
            lemma_written_concat(cs, (amount_desc(a).len() + 3) as int, amount_desc(b), t);
        },
    }
}

} // verus!
