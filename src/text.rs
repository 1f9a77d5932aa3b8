//! Text rendering: decimal integers, amounts of money, and joined lists.

use vstd::prelude::*;
use itertools::Itertools;

verus! {

/// The ASCII digit of a value below ten.
pub open spec fn digit_char(d: nat) -> char {
    if d == 0 {
        '0'
    } else if d == 1 {
        '1'
    } else if d == 2 {
        '2'
    } else if d == 3 {
        '3'
    } else if d == 4 {
        '4'
    } else if d == 5 {
        '5'
    } else if d == 6 {
        '6'
    } else if d == 7 {
        '7'
    } else if d == 8 {
        '8'
    } else {
        '9'
    }
}

/// The decimal digits of `n`, most significant first, without leading zeros.
pub open spec fn decimal_spec(n: nat) -> Seq<char>
    decreases n,
{
    if n < 10 {
        seq![digit_char(n)]
    } else {
        decimal_spec(n / 10) + seq![digit_char(n % 10)]
    }
}

/// A decimal digit character.
pub open spec fn is_digit_char(c: char) -> bool {
    '0' <= c <= '9'
}

/// Value of a decimal digit character.
pub open spec fn char_value(c: char) -> nat {
    (c as nat - '0' as nat) as nat
}

/// Value of a run of decimal digits, most significant first.
pub open spec fn value_of_digits(s: Seq<char>) -> nat
    decreases s.len(),
{
    if s.len() == 0 {
        0
    } else {
        value_of_digits(s.drop_last()) * 10 + char_value(s.last())
    }
}

/// The digit of `d` is a digit character worth `d`.
proof fn lemma_digit_char(d: nat)
    requires
        d < 10,
    ensures
        is_digit_char(digit_char(d)),
        char_value(digit_char(d)) == d,
{
}

/// The decimal text of `n` is a non-empty run of digits worth `n`.
pub proof fn lemma_decimal_digits(n: nat)
    ensures
        decimal_spec(n).len() >= 1,
        forall|i: int| 0 <= i < decimal_spec(n).len() ==> is_digit_char(#[trigger] decimal_spec(n)[i]),
        value_of_digits(decimal_spec(n)) == n,
    decreases n,
{
    if n < 10 {
        lemma_digit_char(n);
        assert(decimal_spec(n).drop_last() =~= Seq::<char>::empty());
        assert(value_of_digits(decimal_spec(n)) == value_of_digits(Seq::<char>::empty()) * 10 + char_value(digit_char(n)));
    } else {
        lemma_decimal_digits(n / 10);
        lemma_digit_char(n % 10);
        let d = decimal_spec(n);
        assert(d.drop_last() =~= decimal_spec(n / 10));
        assert(d.last() == digit_char(n % 10));
        assert(n == (n / 10) * 10 + n % 10);
        assert(value_of_digits(d) == value_of_digits(decimal_spec(n / 10)) * 10 + char_value(digit_char(n % 10)));
        assert forall|i: int| 0 <= i < d.len() implies is_digit_char(#[trigger] d[i]) by {
            if i < d.len() - 1 {
                assert(d[i] == decimal_spec(n / 10)[i]);
            }
        }
    }
}

/// A decimal text followed by a text that does not start with a digit splits
/// in one way only.
pub proof fn lemma_decimal_split(a: nat, x: Seq<char>, b: nat, y: Seq<char>)
    requires
        decimal_spec(a) + x == decimal_spec(b) + y,
        x.len() == 0 || !is_digit_char(x[0]),
        y.len() == 0 || !is_digit_char(y[0]),
    ensures
        a == b,
        x == y,
{
    lemma_decimal_digits(a);
    lemma_decimal_digits(b);
    let da = decimal_spec(a);
    let db = decimal_spec(b);
    let l = da + x;
    if da.len() < db.len() {
        assert(l[da.len() as int] == db[da.len() as int]);
        if x.len() > 0 {
            assert(l[da.len() as int] == x[0]);
        }
    } else if db.len() < da.len() {
        assert(l[db.len() as int] == da[db.len() as int]);
        if y.len() > 0 {
            assert((db + y)[db.len() as int] == y[0]);
        }
    }
    assert(da.len() == db.len());
    assert(da =~= l.subrange(0, da.len() as int));
    assert(db =~= (db + y).subrange(0, db.len() as int));
    assert(x =~= l.subrange(da.len() as int, l.len() as int));
    assert(y =~= (db + y).subrange(db.len() as int, l.len() as int));
}

/// Relies on the standard `Display` of `usize` (through `to_string`): the
/// decimal digits of the value, without sign or leading zeros.
#[verifier::external_body]
pub(crate) fn decimal(n: usize) -> (r: String)
    ensures
        r@ == decimal_spec(n as nat),
{
    n.to_string()
}

/// The one-character text of a digit.
pub fn digit_text(d: usize) -> (r: &'static str)
    requires
        d < 10,
    ensures
        r@ == seq![digit_char(d as nat)],
{
    proof {
        reveal_strlit("0");
        reveal_strlit("1");
        reveal_strlit("2");
        reveal_strlit("3");
        reveal_strlit("4");
        reveal_strlit("5");
        reveal_strlit("6");
        reveal_strlit("7");
        reveal_strlit("8");
        reveal_strlit("9");
    }
    if d == 0 {
        "0"
    } else if d == 1 {
        "1"
    } else if d == 2 {
        "2"
    } else if d == 3 {
        "3"
    } else if d == 4 {
        "4"
    } else if d == 5 {
        "5"
    } else if d == 6 {
        "6"
    } else if d == 7 {
        "7"
    } else if d == 8 {
        "8"
    } else {
        "9"
    }
}

/// An amount in cents written in currency units: the whole part, then a
/// point and the cents without trailing zeros, if any (`5500` is `55`,
/// `7750` is `77.5`, `5505` is `55.05`).
pub open spec fn cents_text_spec(v: nat) -> Seq<char> {
    let f = v % 100;
    if f == 0 {
        decimal_spec(v / 100)
    } else if f % 10 == 0 {
        decimal_spec(v / 100) + seq!['.', digit_char(f / 10)]
    } else {
        decimal_spec(v / 100) + seq!['.', digit_char(f / 10), digit_char(f % 10)]
    }
}

/// An amount in cents written in currency units.
pub fn cents_text(v: usize) -> (r: String)
    ensures
        r@ == cents_text_spec(v as nat),
{
    let mut s = decimal(v / 100);
    let f = v % 100;
    if f != 0 {
        proof {
            reveal_strlit(".");
        }
        s.append(".");
        s.append(digit_text(f / 10));
        if f % 10 != 0 {
            s.append(digit_text(f % 10));
        }
    }
    proof {
        if f != 0 {
            assert(s@ =~= cents_text_spec(v as nat));
        }
    }
    s
}

/// Texts joined with `sep` between each two.
pub open spec fn joined(items: Seq<Seq<char>>, sep: Seq<char>) -> Seq<char>
    decreases items.len(),
{
    if items.len() == 0 {
        Seq::empty()
    } else if items.len() == 1 {
        items[0]
    } else {
        joined(items.drop_last(), sep) + sep + items.last()
    }
}

/// The texts of a list of strings.
pub open spec fn texts(v: Seq<String>) -> Seq<Seq<char>> {
    v.map_values(|s: String| s@)
}

/// Relies on itertools' `Itertools::join`: the items' texts in order, with
/// `sep` between each two, and empty for no items.
#[verifier::external_body]
pub(crate) fn join_with(items: &Vec<String>, sep: &str) -> (r: String)
    ensures
        r@ == joined(texts(items@), sep@),
{
    items.iter().join(sep)
}

} // verus!
