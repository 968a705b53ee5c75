//! Signed amounts in euro, zloty and dollars, read from statement cells.
//!
//! A cell first loses every comma (thousands separators: no format here uses
//! a comma as decimal mark), then three grammars are tried in order:
//! `+€<number>`, `+<number><one char>PLN` and `[-]$<number>`. Text after a
//! matched grammar is ignored. A number is an optional sign, then digits with
//! an optional fraction (`12`, `12.`, `12.5`, `.5`), then an optional
//! exponent (`e3`, `E-2`) whose digits cannot be left out; it is kept exactly
//! as written, digit for digit.
use vstd::prelude::*;
use crate::text::{remove_char, without_char};
use crate::ParseError;

verus! {

/// A decimal numeral as written: its sign, the digits before the point, the
/// digits after it, and the power of ten it is scaled by (no digits where
/// there is no exponent).
#[derive(Debug, Clone)]
pub struct Decimal {
    pub negative: bool,
    pub whole: String,
    pub fraction: String,
    pub exponent_negative: bool,
    pub exponent: String,
}

/// The mathematical content of a [`Decimal`].
pub struct DecimalModel {
    pub negative: bool,
    pub whole: Seq<char>,
    pub fraction: Seq<char>,
    pub exponent_negative: bool,
    pub exponent: Seq<char>,
}

impl View for Decimal {
    type V = DecimalModel;

    open spec fn view(&self) -> DecimalModel {
        DecimalModel {
            negative: self.negative,
            whole: self.whole@,
            fraction: self.fraction@,
            exponent_negative: self.exponent_negative,
            exponent: self.exponent@,
        }
    }
}

/// An amount tagged with its currency.
#[derive(Debug, Clone)]
pub enum Currency {
    EUR(Decimal),
    PLN(Decimal),
    USD(Decimal),
}

/// The mathematical content of a [`Currency`].
pub enum CurrencyModel {
    EUR(DecimalModel),
    PLN(DecimalModel),
    USD(DecimalModel),
}

impl View for Currency {
    type V = CurrencyModel;

    open spec fn view(&self) -> CurrencyModel {
        match self {
            Currency::EUR(d) => CurrencyModel::EUR(d@),
            Currency::PLN(d) => CurrencyModel::PLN(d@),
            Currency::USD(d) => CurrencyModel::USD(d@),
        }
    }
}

pub open spec fn is_digit(c: char) -> bool {
    '0' <= c && c <= '9'
}

/// How many digits follow one another in `t` from position `i` on.
pub open spec fn digits_from(t: Seq<char>, i: int) -> nat
    decreases t.len() - i,
{
    if 0 <= i < t.len() && is_digit(t[i]) {
        1 + digits_from(t, i + 1)
    } else {
        0
    }
}

/// The longest number that starts at position `i` of `t`, with the position
/// just after it; `None` where no number starts there.
pub open spec fn number_at(t: Seq<char>, i: int) -> Option<(DecimalModel, int)> {
    let signed = 0 <= i < t.len() && (t[i] == '+' || t[i] == '-');
    let j = if signed { i + 1 } else { i };
    let w = digits_from(t, j);
    let dot = j + w;
    let has_dot = 0 <= dot < t.len() && t[dot] == '.';
    let f = if has_dot { digits_from(t, dot + 1) } else { 0 };
    let mantissa_end = if has_dot { dot + 1 + f } else { dot };
    let has_e = 0 <= mantissa_end < t.len() && (t[mantissa_end] == 'e' || t[mantissa_end] == 'E');
    let e_signed = has_e && mantissa_end + 1 < t.len() && (t[mantissa_end + 1] == '+' || t[
        mantissa_end + 1
    ] == '-');
    let x_start = if e_signed { mantissa_end + 2 } else { mantissa_end + 1 };
    let x = if has_e { digits_from(t, x_start) } else { 0 };
    if w + f == 0 || (has_e && x == 0) {
        None
    } else {
        let d = DecimalModel {
            negative: signed && t[i] == '-',
            whole: t.subrange(j, dot),
            fraction: if has_dot { t.subrange(dot + 1, dot + 1 + f) } else { Seq::empty() },
            exponent_negative: e_signed && t[mantissa_end + 1] == '-',
            exponent: if has_e { t.subrange(x_start, x_start + x) } else { Seq::empty() },
        };
        Some((d, if has_e { x_start + x } else { mantissa_end }))
    }
}

/// The same numeral with the opposite sign.
pub open spec fn negated(d: DecimalModel) -> DecimalModel {
    DecimalModel { negative: !d.negative, ..d }
}

/// `+€<number>`.
pub open spec fn euro_of(t: Seq<char>) -> Option<CurrencyModel> {
    if t.len() >= 2 && t[0] == '+' && t[1] == '€' {
        match number_at(t, 2) {
            Some((d, _)) => Some(CurrencyModel::EUR(d)),
            None => None,
        }
    } else {
        None
    }
}

/// `+<number><one char>PLN`.
pub open spec fn zloty_of(t: Seq<char>) -> Option<CurrencyModel> {
    if t.len() >= 1 && t[0] == '+' && number_at(t, 1) is Some {
        let (d, e) = number_at(t, 1)->0;
        if e + 4 <= t.len() && t.subrange(e + 1, e + 4) == seq!['P', 'L', 'N'] {
            Some(CurrencyModel::PLN(d))
        } else {
            None
        }
    } else {
        None
    }
}

/// `[-]$<number>`; the leading dash negates the number.
pub open spec fn dollar_of(t: Seq<char>) -> Option<CurrencyModel> {
    let dash = t.len() >= 1 && t[0] == '-';
    let k = if dash { 1int } else { 0int };
    if k < t.len() && t[k] == '$' {
        match number_at(t, k + 1) {
            Some((d, _)) => Some(CurrencyModel::USD(if dash { negated(d) } else { d })),
            None => None,
        }
    } else {
        None
    }
}

/// The amount that a cell without commas spells, by the first grammar that
/// matches.
pub open spec fn amount_of(t: Seq<char>) -> Option<CurrencyModel> {
    if euro_of(t) is Some {
        euro_of(t)
    } else if zloty_of(t) is Some {
        zloty_of(t)
    } else {
        dollar_of(t)
    }
}

/// The amount that a raw cell spells: commas are dropped first.
pub open spec fn cell_amount(cell: Seq<char>) -> Option<CurrencyModel> {
    amount_of(without_char(cell, ','))
}

/// Position just after the digits that start at `i`.
fn skip_digits(t: &str, n: usize, i: usize) -> (r: usize)
    requires
        n == t@.len(),
        i <= n,
    ensures
        r == i + digits_from(t@, i as int),
        r <= n,
{
    let mut k: usize = i;
    while k < n && '0' <= t.get_char(k) && t.get_char(k) <= '9'
        invariant
            n == t@.len(),
            i <= k <= n,
            digits_from(t@, i as int) == (k - i) + digits_from(t@, k as int),
        decreases n - k,
    {
        k = k + 1;
    }
    k
}

/// Reads the number that starts at position `i` of `t`.
fn read_number(t: &str, n: usize, i: usize) -> (r: Option<(Decimal, usize)>)
    requires
        n == t@.len(),
        i <= n,
    ensures
        match number_at(t@, i as int) {
            Some((d, e)) => match r {
                Some((rd, re)) => rd@ == d && re == e,
                None => false,
            },
            None => r is None,
        },
{
    let signed = i < n && (t.get_char(i) == '+' || t.get_char(i) == '-');
    let negative = signed && t.get_char(i) == '-';
    let j = if signed { i + 1 } else { i };
    let dot = skip_digits(t, n, j);
    let has_dot = dot < n && t.get_char(dot) == '.';
    let end = if has_dot { skip_digits(t, n, dot + 1) } else { dot };
    if dot == j && (!has_dot || end == dot + 1) {
        return None;
    }
    let has_e = end < n && (t.get_char(end) == 'e' || t.get_char(end) == 'E');
    let e_signed = has_e && end + 1 < n && (t.get_char(end + 1) == '+' || t.get_char(end + 1)
        == '-');
    let exponent_negative = e_signed && t.get_char(end + 1) == '-';
    let x_start = if e_signed { end + 2 } else if has_e { end + 1 } else { end };
    let x_end = if has_e { skip_digits(t, n, x_start) } else { end };
    if has_e && x_end == x_start {
        return None;
    }
    let exponent = if has_e {
        String::from_str(t.substring_char(x_start, x_end))
    } else {
        String::new()
    };
    let whole = String::from_str(t.substring_char(j, dot));
    let fraction = if has_dot {
        String::from_str(t.substring_char(dot + 1, end))
    } else {
        String::new()
    };
    Some((
        Decimal { negative, whole, fraction, exponent_negative, exponent },
        if has_e { x_end } else { end },
    ))
}

/// Whether `t` holds `PLN` from position `k` on.
fn zloty_mark_at(t: &str, n: usize, k: usize) -> (r: bool)
    requires
        n == t@.len(),
    ensures
        r == (k + 3 <= n && t@.subrange(k as int, k + 3) == seq!['P', 'L', 'N']),
{
    if k > n || n - k < 3 {
        return false;
    }
    let r = t.get_char(k) == 'P' && t.get_char(k + 1) == 'L' && t.get_char(k + 2) == 'N';
    proof {
        let s = t@.subrange(k as int, k + 3);
        if r {
            assert(s =~= seq!['P', 'L', 'N']);
        } else if s == seq!['P', 'L', 'N'] {
            assert(s[0] == t@[k as int] && s[1] == t@[k + 1] && s[2] == t@[k + 2]);
        }
    }
    r
}

/// Reads the amount in a cell that holds no comma.
fn read_amount(t: &str) -> (r: Option<Currency>)
    ensures
        match amount_of(t@) {
            Some(m) => r is Some && r->0@ == m,
            None => r is None,
        },
{
    let n = t.unicode_len();
    // `+€<number>`
    if n >= 2 && t.get_char(0) == '+' && t.get_char(1) == '€' {
        if let Some((d, _)) = read_number(t, n, 2) {
            return Some(Currency::EUR(d));
        }
    }
    // `+<number><one char>PLN`
    if n >= 1 && t.get_char(0) == '+' {
        if let Some((d, e)) = read_number(t, n, 1) {
            if e < n && zloty_mark_at(t, n, e + 1) {
                return Some(Currency::PLN(d));
            }
        }
    }
    // `[-]$<number>`
    let dash = n >= 1 && t.get_char(0) == '-';
    let k: usize = if dash { 1 } else { 0 };
    if k < n && t.get_char(k) == '$' {
        if let Some((d, _)) = read_number(t, n, k + 1) {
            if dash {
                let Decimal { negative, whole, fraction, exponent_negative, exponent } = d;
                return Some(
                    Currency::USD(
                        Decimal { negative: !negative, whole, fraction, exponent_negative, exponent },
                    ),
                );
            }
            return Some(Currency::USD(d));
        }
    }
    None
}

/// Parses one amount cell: commas are dropped, then the euro, zloty and
/// dollar grammars are tried in that order.
pub fn extract_cash(cashline: &str) -> (r: Result<Currency, ParseError>)
    ensures
        match cell_amount(cashline@) {
            Some(m) => r is Ok && r->Ok_0@ == m,
            None => r == Err::<Currency, ParseError>(ParseError::UnparsableAmount),
        },
{
    let t = remove_char(cashline, ',');
    match read_amount(t.as_str()) {
        Some(c) => Ok(c),
        None => Err(ParseError::UnparsableAmount),
    }
}

pub open spec fn all_digits(s: Seq<char>) -> bool {
    forall|k: int| 0 <= k < s.len() ==> is_digit(#[trigger] s[k])
}

/// An unsigned numeral with whole digits `w` and fraction digits `f` (no
/// point where `f` is empty).
pub open spec fn numeral_text(w: Seq<char>, f: Seq<char>) -> Seq<char> {
    if f.len() == 0 {
        w
    } else {
        w + seq!['.'] + f
    }
}

pub open spec fn unsigned(w: Seq<char>, f: Seq<char>) -> DecimalModel {
    DecimalModel {
        negative: false,
        whole: w,
        fraction: f,
        exponent_negative: false,
        exponent: Seq::empty(),
    }
}

proof fn lemma_without_char_concat(a: Seq<char>, b: Seq<char>, c: char)
    ensures
        without_char(a + b, c) == without_char(a, c) + without_char(b, c),
    decreases b.len(),
{
    if b.len() == 0 {
        assert(a + b =~= a);
        assert(without_char(a, c) + without_char(b, c) =~= without_char(a, c));
    } else {
        lemma_without_char_concat(a, b.drop_last(), c);
        assert((a + b).drop_last() =~= a + b.drop_last());
        assert((a + b).last() == b.last());
        let wa = without_char(a, c);
        let wb = without_char(b.drop_last(), c);
        if b.last() != c {
            assert(wa + wb.push(b.last()) =~= (wa + wb).push(b.last()));
        }
    }
}

proof fn lemma_without_absent(s: Seq<char>, c: char)
    requires
        forall|k: int| 0 <= k < s.len() ==> s[k] != c,
    ensures
        without_char(s, c) == s,
    decreases s.len(),
{
    if s.len() > 0 {
        lemma_without_absent(s.drop_last(), c);
        assert(s.drop_last().push(s.last()) =~= s);
    }
}

proof fn lemma_digits_from(t: Seq<char>, i: int, n: int)
    requires
        0 <= i,
        0 <= n,
        i + n <= t.len(),
        forall|k: int| i <= k < i + n ==> is_digit(#[trigger] t[k]),
        i + n == t.len() || !is_digit(t[i + n]),
    ensures
        digits_from(t, i) == n,
    decreases n,
{
    if n > 0 {
        lemma_digits_from(t, i + 1, n - 1);
    }
}

/// An unsigned numeral followed by text that cannot extend it is read as
/// exactly that numeral.
proof fn lemma_number_at(p: Seq<char>, w: Seq<char>, f: Seq<char>, rest: Seq<char>)
    requires
        w.len() > 0,
        all_digits(w),
        all_digits(f),
        rest.len() == 0 || (!is_digit(rest[0]) && rest[0] != '.' && rest[0] != 'e' && rest[0]
            != 'E'),
    ensures
        number_at(p + numeral_text(w, f) + rest, p.len() as int) == Some(
            (unsigned(w, f), (p.len() + numeral_text(w, f).len()) as int),
        ),
{
    let t = p + numeral_text(w, f) + rest;
    let i = p.len() as int;
    let dot = i + w.len();
    assert forall|k: int| i <= k < dot implies is_digit(#[trigger] t[k]) by {
        assert(t[k] == w[k - i]);
    }
    assert(t[i] == w[0]);
    assert(is_digit(w[0]));
    assert(!(t[i] == '+' || t[i] == '-'));
    assert(t.len() == p.len() + numeral_text(w, f).len() + rest.len());
    if f.len() == 0 {
        if rest.len() > 0 {
            assert(t[dot] == rest[0]);
        }
        lemma_digits_from(t, i, w.len() as int);
        assert(t.subrange(i, dot) =~= w);
        assert(!(0 <= dot < t.len() && t[dot] == '.'));
        assert(f =~= Seq::<char>::empty());
    } else {
        assert(t[dot] == '.');
        lemma_digits_from(t, i, w.len() as int);
        assert forall|k: int| dot + 1 <= k < dot + 1 + f.len() implies is_digit(#[trigger] t[k]) by {
            assert(t[k] == f[k - dot - 1]);
        }
        if rest.len() > 0 {
            assert(t[dot + 1 + f.len()] == rest[0]);
        }
        lemma_digits_from(t, dot + 1, f.len() as int);
        assert(t.subrange(i, dot) =~= w);
        assert(t.subrange(dot + 1, dot + 1 + f.len()) =~= f);
        assert(numeral_text(w, f).len() == w.len() + 1 + f.len());
    }
}

/// A cell `+€N`, where `N` without its commas is an unsigned numeral, is that
/// many euro.
pub proof fn law_euro_amount(n: Seq<char>, w: Seq<char>, f: Seq<char>)
    requires
        w.len() > 0,
        all_digits(w),
        all_digits(f),
        without_char(n, ',') == numeral_text(w, f),
    ensures
        cell_amount(seq!['+', '€'] + n) == Some(CurrencyModel::EUR(unsigned(w, f))),
{
    let head = seq!['+', '€'];
    lemma_without_char_concat(head, n, ',');
    lemma_without_absent(head, ',');
    let t = head + numeral_text(w, f);
    lemma_number_at(head, w, f, Seq::empty());
    assert(head + numeral_text(w, f) + Seq::<char>::empty() =~= t);
    assert(t[0] == '+' && t[1] == '€');
}

/// A cell `+N PLN` (any one separator that cannot continue a number),
/// where `N` without its commas is an unsigned numeral, is that many zloty.
pub proof fn law_zloty_amount(n: Seq<char>, w: Seq<char>, f: Seq<char>, sep: char)
    requires
        w.len() > 0,
        all_digits(w),
        all_digits(f),
        without_char(n, ',') == numeral_text(w, f),
        !is_digit(sep),
        sep != '.',
        sep != ',',
        sep != 'e',
        sep != 'E',
    ensures
        cell_amount(seq!['+'] + n + seq![sep, 'P', 'L', 'N']) == Some(
            CurrencyModel::PLN(unsigned(w, f)),
        ),
{
    let head = seq!['+'];
    let tail = seq![sep, 'P', 'L', 'N'];
    lemma_without_char_concat(head + n, tail, ',');
    lemma_without_char_concat(head, n, ',');
    lemma_without_absent(head, ',');
    lemma_without_absent(tail, ',');
    let t = head + numeral_text(w, f) + tail;
    assert(without_char(head + n + tail, ',') == t);
    lemma_number_at(head, w, f, tail);
    let e = 1 + numeral_text(w, f).len() as int;
    assert(t[0] == '+');
    assert(t[1] == w[0]);
    assert(t.subrange(e + 1, e + 4) =~= seq!['P', 'L', 'N']);
}

/// A cell `$N`, where `N` without its commas is an unsigned numeral, is that
/// many dollars; with a leading dash it is the negated amount.
pub proof fn law_dollar_amount(n: Seq<char>, w: Seq<char>, f: Seq<char>)
    requires
        w.len() > 0,
        all_digits(w),
        all_digits(f),
        without_char(n, ',') == numeral_text(w, f),
    ensures
        cell_amount(seq!['$'] + n) == Some(CurrencyModel::USD(unsigned(w, f))),
        cell_amount(seq!['-', '$'] + n) == Some(CurrencyModel::USD(negated(unsigned(w, f)))),
{
    let plain = seq!['$'];
    let dashed = seq!['-', '$'];
    lemma_without_char_concat(plain, n, ',');
    lemma_without_absent(plain, ',');
    lemma_without_char_concat(dashed, n, ',');
    lemma_without_absent(dashed, ',');
    lemma_number_at(plain, w, f, Seq::empty());
    lemma_number_at(dashed, w, f, Seq::empty());
    let t1 = plain + numeral_text(w, f);
    let t2 = dashed + numeral_text(w, f);
    assert(plain + numeral_text(w, f) + Seq::<char>::empty() =~= t1);
    assert(dashed + numeral_text(w, f) + Seq::<char>::empty() =~= t2);
    assert(t1[0] == '$');
    assert(t2[0] == '-' && t2[1] == '$');
}

} // verus!
