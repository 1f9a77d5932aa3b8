//! Reading the text fields of a sales row: optional fields, amounts of money
//! and channel names.

use vstd::prelude::*;
use crate::text::{char_value, is_digit_char, value_of_digits};

verus! {

/// The characters of a text.
pub fn chars_of(s: &str) -> (r: Vec<char>)
    ensures
        r@ == s@,
{
    let n = s.unicode_len();
    let mut v: Vec<char> = Vec::new();
    let mut i: usize = 0;
    while i < n
        invariant
            n == s@.len(),
            i <= n,
            v@ == s@.subrange(0, i as int),
        decreases n - i,
    {
        v.push(s.get_char(i));
        i = i + 1;
    }
    assert(v@ =~= s@);
    v
}

/// Whether two character lists are equal.
pub(crate) fn same_chars(a: &Vec<char>, b: &Vec<char>) -> (r: bool)
    ensures
        r == (a@ == b@),
{
    if a.len() != b.len() {
        return false;
    }
    let mut i: usize = 0;
    while i < a.len()
        invariant
            a@.len() == b@.len(),
            i <= a@.len(),
            forall|k: int| 0 <= k < i ==> a@[k] == b@[k],
        decreases a@.len() - i,
    {
        if a[i] != b[i] {
            return false;
        }
        i = i + 1;
    }
    assert(a@ =~= b@);
    true
}

/// The text of an optional field: absent when blank or `N/A`.
pub open spec fn na_field(s: Seq<char>) -> Option<Seq<char>> {
    if s.len() == 0 || s == "N/A"@ {
        None
    } else {
        Some(s)
    }
}

/// An optional field, absent when missing, blank or `N/A`.
pub fn field_or_na(o: Option<&str>) -> (r: Option<String>)
    ensures
        match o {
            Some(s) => match r {
                Some(t) => na_field(s@) == Some(t@),
                None => na_field(s@) is None,
            },
            None => r is None,
        },
{
    match o {
        Some(s) => {
            let cs = chars_of(s);
            let na = chars_of("N/A");
            if cs.len() > 0 && !same_chars(&cs, &na) {
                Some(String::from_str(s))
            } else {
                None
            }
        },
        None => None,
    }
}

/// `pat` occurs in `s` at position `i`.
pub open spec fn occurs_at(s: Seq<char>, pat: Seq<char>, i: int) -> bool {
    0 <= i && i + pat.len() <= s.len() && s.subrange(i, i + pat.len()) == pat
}

/// `pat` occurs somewhere in `s`.
pub open spec fn occurs(s: Seq<char>, pat: Seq<char>) -> bool {
    exists|i: int| #[trigger] occurs_at(s, pat, i)
}

/// Whether `pat` occurs in `s`.
pub fn contains_text(s: &str, pat: &str) -> (r: bool)
    ensures
        r == occurs(s@, pat@),
{
    let cs = chars_of(s);
    let ps = chars_of(pat);
    if ps.len() > cs.len() {
        assert forall|i: int| !#[trigger] occurs_at(s@, pat@, i) by {}
        return false;
    }
    let last = cs.len() - ps.len();
    let mut i: usize = 0;
    while i <= last
        invariant
            cs@ == s@,
            ps@ == pat@,
            last == cs@.len() - ps@.len(),
            i <= last + 1,
            last + ps@.len() == cs@.len(),
            forall|k: int| 0 <= k < i ==> !#[trigger] occurs_at(s@, pat@, k),
        decreases last + 1 - i,
    {
        let mut j: usize = 0;
        let mut ok = true;
        while j < ps.len()
            invariant
                cs@ == s@,
                ps@ == pat@,
                i <= last,
                last == cs@.len() - ps@.len(),
                last + ps@.len() == cs@.len(),
                j <= ps@.len(),
                ok == (forall|k: int| 0 <= k < j ==> cs@[i + k] == ps@[k]),
            decreases ps@.len() - j,
        {
            assert(i + j < cs.len());
            if cs[i + j] != ps[j] {
                ok = false;
            }
            j = j + 1;
        }
        if ok {
            assert(s@.subrange(i as int, i + pat@.len()) =~= pat@);
            assert(occurs_at(s@, pat@, i as int));
            return true;
        }
        proof {
            if occurs_at(s@, pat@, i as int) {
                assert forall|k: int| 0 <= k < ps@.len() implies cs@[i + k] == ps@[k] by {
                    assert(s@.subrange(i as int, i + pat@.len())[k] == pat@[k]);
                }
            }
        }
        if i == last {
            assert forall|k: int| !#[trigger] occurs_at(s@, pat@, k) by {
                if 0 <= k < i + 1 {
                } else {
                }
            }
            return false;
        }
        i = i + 1;
    }
    false
}

/// Every character is a decimal digit.
pub open spec fn all_digits(s: Seq<char>) -> bool {
    forall|i: int| 0 <= i < s.len() ==> is_digit_char(#[trigger] s[i])
}

/// Cents of the fraction digits of an amount: the first two digits, rounded
/// half up on the third.
pub open spec fn fraction_cents(f: Seq<char>) -> nat {
    (if f.len() >= 1 { char_value(f[0]) * 10 } else { 0 }) + (if f.len() >= 2 { char_value(f[1]) } else { 0 }) + (
    if f.len() >= 3 && char_value(f[2]) >= 5 { 1nat } else { 0nat })
}

/// The amount of money a text writes, in cents rounded to the nearest:
/// digits, optionally followed by a point and fraction digits, with at least
/// one digit in all.
pub open spec fn amount_cents(s: Seq<char>) -> Option<nat> {
    if s.len() > 0 && all_digits(s) {
        Some(value_of_digits(s) * 100)
    } else if exists|p: int| 0 <= p < s.len() && s[p] == '.' {
        let p = choose|p: int| 0 <= p < s.len() && s[p] == '.';
        let ip = s.subrange(0, p);
        let fp = s.subrange(p + 1, s.len() as int);
        if s.len() > 1 && all_digits(ip) && all_digits(fp) {
            Some(value_of_digits(ip) * 100 + fraction_cents(fp))
        } else {
            None
        }
    } else {
        None
    }
}

/// A longer run of digits is worth no less.
pub proof fn lemma_digits_value_grows(s: Seq<char>, i: int, j: int)
    requires
        0 <= i <= j <= s.len(),
    ensures
        value_of_digits(s.subrange(0, i)) <= value_of_digits(s.subrange(0, j)),
    decreases j - i,
{
    if i < j {
        lemma_digits_value_grows(s, i, j - 1);
        assert(s.subrange(0, j).drop_last() =~= s.subrange(0, j - 1));
    }
}

/// Value of the digits `s[from..to]`, if all are digits and it fits.
pub(crate) fn digits_in(s: &Vec<char>, from: usize, to: usize) -> (r: Option<usize>)
    requires
        from <= to <= s@.len(),
    ensures
        match r {
            Some(v) => all_digits(s@.subrange(from as int, to as int)) && v == value_of_digits(s@.subrange(from as int, to as int)),
            None => !all_digits(s@.subrange(from as int, to as int)) || value_of_digits(s@.subrange(from as int, to as int)) > usize::MAX,
        },
{
    let ghost t = s@.subrange(from as int, to as int);
    let mut acc: usize = 0;
    let mut i: usize = from;
    while i < to
        invariant
            from <= i <= to,
            to <= s@.len(),
            t == s@.subrange(from as int, to as int),
            all_digits(s@.subrange(from as int, i as int)),
            acc == value_of_digits(s@.subrange(from as int, i as int)),
        decreases to - i,
    {
        let c = s[i];
        assert(s@.subrange(from as int, i + 1).drop_last() =~= s@.subrange(from as int, i as int));
        assert(t.subrange(0, (i - from) as int) =~= s@.subrange(from as int, i as int));
        assert(t.subrange(0, (i + 1 - from) as int) =~= s@.subrange(from as int, i + 1));
        if !('0' <= c && c <= '9') {
            assert(t[i - from] == c);
            return None;
        }
        let d = (c as u32 - '0' as u32) as usize;
        if acc > (usize::MAX - d) / 10 {
            proof {
                lemma_digits_value_grows(t, (i + 1 - from) as int, t.len() as int);
                assert(t.subrange(0, t.len() as int) =~= t);
            }
            return None;
        }
        acc = acc * 10 + d;
        i = i + 1;
    }
    assert(s@.subrange(from as int, i as int) =~= t);
    Some(acc)
}

/// Whether `s[from..to]` are all digits.
fn all_digits_in(s: &Vec<char>, from: usize, to: usize) -> (r: bool)
    requires
        from <= to <= s@.len(),
    ensures
        r == all_digits(s@.subrange(from as int, to as int)),
{
    let mut i: usize = from;
    while i < to
        invariant
            from <= i <= to,
            to <= s@.len(),
            forall|k: int| from <= k < i ==> is_digit_char(#[trigger] s@[k]),
        decreases to - i,
    {
        if !('0' <= s[i] && s[i] <= '9') {
            assert(s@.subrange(from as int, to as int)[i - from] == s@[i as int]);
            return false;
        }
        i = i + 1;
    }
    assert forall|k: int| 0 <= k < to - from implies is_digit_char(#[trigger] s@.subrange(from as int, to as int)[k]) by {
        assert(s@.subrange(from as int, to as int)[k] == s@[from + k]);
    }
    true
}

/// With a first point at `p`, the amount is read around it.
proof fn lemma_amount_at(s: Seq<char>, p: int)
    requires
        0 <= p < s.len(),
        s[p] == '.',
        forall|k: int| 0 <= k < p ==> s[k] != '.',
    ensures
        amount_cents(s) == (if s.len() > 1 && all_digits(s.subrange(0, p)) && all_digits(s.subrange(p + 1, s.len() as int)) {
            Some(value_of_digits(s.subrange(0, p)) * 100 + fraction_cents(s.subrange(p + 1, s.len() as int)))
        } else {
            None::<nat>
        }),
{
    assert(!is_digit_char(s[p]));
    assert(!all_digits(s));
    let q = choose|q: int| 0 <= q < s.len() && s[q] == '.';
    if q != p {
        assert(q > p);
        assert(s.subrange(0, q)[p] == '.');
        assert(!all_digits(s.subrange(0, q)));
        assert(s.subrange(p + 1, s.len() as int)[q - p - 1] == '.');
        assert(!all_digits(s.subrange(p + 1, s.len() as int)));
    }
}

/// The amount of money a text writes, in cents rounded to the nearest; `None`
/// when it is not an amount or does not fit.
pub fn parse_cents(s: &str) -> (r: Option<usize>)
    ensures
        r == (match amount_cents(s@) {
            Some(c) => if c <= usize::MAX { Some(c as usize) } else { None::<usize> },
            None => None::<usize>,
        }),
{
    let cs = chars_of(s);
    cents_of_chars(&cs)
}

/// The amount of money some characters write, in cents rounded to the
/// nearest; `None` when they are not an amount or it does not fit.
pub fn cents_of_chars(cs: &Vec<char>) -> (r: Option<usize>)
    ensures
        r == (match amount_cents(cs@) {
            Some(c) => if c <= usize::MAX { Some(c as usize) } else { None::<usize> },
            None => None::<usize>,
        }),
{
    let ghost s = cs@;
    let n = cs.len();
    let mut p: usize = 0;
    while p < n && cs[p] != '.'
        invariant
            cs@ == s,
            n == s.len(),
            p <= n,
            forall|k: int| 0 <= k < p ==> s[k] != '.',
        decreases n - p,
    {
        p = p + 1;
    }
    assert(s.subrange(0, n as int) =~= s);
    if p == n {
        assert(!(exists|q: int| 0 <= q < s.len() && s[q] == '.'));
        if n == 0 {
            return None;
        }
        match digits_in(cs, 0, n) {
            Some(v) => if v <= usize::MAX / 100 {
                assert(v * 100 <= usize::MAX) by (nonlinear_arith)
                    requires v <= usize::MAX / 100;
                Some(v * 100)
            } else {
                assert(v * 100 > usize::MAX) by (nonlinear_arith)
                    requires v > usize::MAX / 100;
                None
            },
            None => None,
        }
    } else {
        proof {
            lemma_amount_at(s, p as int);
        }
        if n <= 1 {
            return None;
        }
        let ip = digits_in(cs, 0, p);
        let fp = all_digits_in(cs, p + 1, n);
        match (ip, fp) {
            (Some(a), true) => {
                let ghost fs = s.subrange(p + 1, n as int);
                let f = n - (p + 1);
                let d1: usize = if f >= 1 { (cs[p + 1] as u32 - '0' as u32) as usize } else { 0 };
                let d2: usize = if f >= 2 { (cs[p + 2] as u32 - '0' as u32) as usize } else { 0 };
                let up: usize = if f >= 3 && (cs[p + 3] as u32 - '0' as u32) >= 5 { 1 } else { 0 };
                proof {
                    if f >= 1 {
                        assert(fs[0] == s[p + 1]);
                        assert(is_digit_char(fs[0]));
                    }
                    if f >= 2 {
                        assert(fs[1] == s[p + 2]);
                        assert(is_digit_char(fs[1]));
                    }
                    if f >= 3 {
                        assert(fs[2] == s[p + 3]);
                        assert(is_digit_char(fs[2]));
                    }
                }
                let frac = d1 * 10 + d2 + up;
                assert(frac == fraction_cents(fs));
                if a <= (usize::MAX - frac) / 100 {
                    assert(a * 100 + frac <= usize::MAX) by (nonlinear_arith)
                        requires a <= (usize::MAX - frac) / 100, frac <= 100;
                    Some(a * 100 + frac)
                } else {
                    assert(a * 100 + frac > usize::MAX) by (nonlinear_arith)
                        requires a > (usize::MAX - frac) / 100, frac <= 100;
                    None
                }
            },
            (Some(_), false) => None,
            _ => {
                proof {
                    if all_digits(s.subrange(0, p as int)) {
                        let is = s.subrange(0, p as int);
                        assert(value_of_digits(is) * 100 + fraction_cents(s.subrange(p + 1, n as int)) > usize::MAX) by (nonlinear_arith)
                            requires value_of_digits(is) > usize::MAX;
                    }
                }
                None
            },
        }
    }
}

} // verus!
