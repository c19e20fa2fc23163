//! Tokenizer: splits the input at whitespace and classifies each word.
//!
//! Every whitespace-separated word becomes exactly one token. Numbers are kept
//! as their decimal literal text (a slice of the input); their numeric value is
//! read wherever a value is needed.

use vstd::prelude::*;

use crate::text::{is_digit, is_digit_char, is_space, is_space_char, lower, lower_is, lower_range_is};
use crate::{ArithOp, Currency, CurrencySide};

verus! {

/// A decimal literal as written in the input: one or more ASCII digits,
/// optionally followed by `.` and one or more digits.
#[derive(Debug, Clone, Copy, PartialEq)]
pub struct Num<'a> {
    pub text: &'a str,
}

impl<'a> View for Num<'a> {
    type V = Seq<char>;

    open spec fn view(&self) -> Seq<char> {
        self.text@
    }
}

#[derive(Debug, Clone, Copy, PartialEq)]
pub enum Token<'a> {
    Number(Num<'a>),
    /// An amount glued to `time`/`times`, such as `3time`.
    Quantity(Num<'a>),
    Currency { value: Num<'a>, cur: Currency, side: CurrencySide },
    /// An amount glued to `%`, such as `20%`.
    PercentValue(Num<'a>),
    /// `%` or `percent` on its own.
    Percent,
    Op(ArithOp),
    Word(&'a str),
    /// `time` or `times` on its own.
    Times,
}

/// A token with its texts taken as character sequences.
pub enum TokenModel {
    Number(Seq<char>),
    Quantity(Seq<char>),
    Currency { value: Seq<char>, cur: Currency, side: CurrencySide },
    PercentValue(Seq<char>),
    Percent,
    Op(ArithOp),
    Word(Seq<char>),
    Times,
}

impl<'a> View for Token<'a> {
    type V = TokenModel;

    open spec fn view(&self) -> TokenModel {
        match *self {
            Token::Number(n) => TokenModel::Number(n@),
            Token::Quantity(n) => TokenModel::Quantity(n@),
            Token::Currency { value, cur, side } => TokenModel::Currency { value: value@, cur, side },
            Token::PercentValue(n) => TokenModel::PercentValue(n@),
            Token::Percent => TokenModel::Percent,
            Token::Op(op) => TokenModel::Op(op),
            Token::Word(w) => TokenModel::Word(w@),
            Token::Times => TokenModel::Times,
        }
    }
}

pub open spec fn views<'a>(ts: Seq<Token<'a>>) -> Seq<TokenModel> {
    ts.map_values(|t: Token<'a>| t@)
}

pub open spec fn all_digits(s: Seq<char>) -> bool {
    forall|i: int| 0 <= i < s.len() ==> is_digit(#[trigger] s[i])
}

/// `s` is a decimal literal: digits, or digits `.` digits.
pub open spec fn is_decimal(s: Seq<char>) -> bool {
    &&& s.len() > 0
    &&& {
        ||| all_digits(s)
        ||| exists|p: int|
            0 < p < s.len() - 1 && #[trigger] s[p] == '.' && all_digits(s.take(p)) && all_digits(
                s.skip(p + 1),
            )
    }
}

pub open spec fn currency_of(c: char) -> Option<Currency> {
    if c == '$' {
        Some(Currency::Dollar)
    } else if c == '€' {
        Some(Currency::Euro)
    } else if c == '£' {
        Some(Currency::Pound)
    } else if c == '¥' {
        Some(Currency::Yen)
    } else {
        None
    }
}

/// The token that one word becomes.
pub open spec fn classify(w: Seq<char>) -> TokenModel {
    let l = lower(w);
    let n = w.len() as int;
    if l == "+"@ || l == "plus"@ {
        TokenModel::Op(ArithOp::Add)
    } else if l == "-"@ || l == "minus"@ {
        TokenModel::Op(ArithOp::Sub)
    } else if l == "*"@ || l == "×"@ {
        TokenModel::Op(ArithOp::Mul)
    } else if l == "/"@ || l == "÷"@ {
        TokenModel::Op(ArithOp::Div)
    } else if l == "times"@ || l == "time"@ {
        TokenModel::Times
    } else if l == "%"@ || l == "percent"@ {
        TokenModel::Percent
    } else if is_decimal(w) {
        TokenModel::Number(w)
    } else if n > 1 && w[n - 1] == '%' && is_decimal(w.take(n - 1)) {
        TokenModel::PercentValue(w.take(n - 1))
    } else if n > 1 && currency_of(w[n - 1]) is Some && is_decimal(w.take(n - 1)) {
        TokenModel::Currency {
            value: w.take(n - 1),
            cur: currency_of(w[n - 1])->0,
            side: CurrencySide::Suffix,
        }
    } else if n > 1 && currency_of(w[0]) is Some && is_decimal(w.skip(1)) {
        TokenModel::Currency {
            value: w.skip(1),
            cur: currency_of(w[0])->0,
            side: CurrencySide::Prefix,
        }
    } else if n > 5 && lower(w.skip(n - 5)) == "times"@ && is_decimal(w.take(n - 5)) {
        TokenModel::Quantity(w.take(n - 5))
    } else if n > 4 && lower(w.skip(n - 4)) == "time"@ && is_decimal(w.take(n - 4)) {
        TokenModel::Quantity(w.take(n - 4))
    } else {
        TokenModel::Word(w)
    }
}

/// Length of the run of non-space characters at the start of `s`.
pub open spec fn word_len(s: Seq<char>) -> nat
    decreases s.len(),
{
    if s.len() == 0 || is_space(s[0]) {
        0
    } else {
        1 + word_len(s.drop_first())
    }
}

pub proof fn lemma_word_len_bound(s: Seq<char>)
    ensures
        word_len(s) <= s.len(),
        s.len() > 0 && !is_space(s[0]) ==> word_len(s) >= 1,
    decreases s.len(),
{
    if s.len() > 0 && !is_space(s[0]) {
        lemma_word_len_bound(s.drop_first());
    }
}

/// The whitespace-separated words of `s`, in order.
pub open spec fn words(s: Seq<char>) -> Seq<Seq<char>>
    decreases s.len(),
{
    if s.len() == 0 {
        seq![]
    } else if is_space(s[0]) {
        words(s.drop_first())
    } else {
        proof {
            lemma_word_len_bound(s);
        }
        seq![s.take(word_len(s) as int)] + words(s.skip(word_len(s) as int))
    }
}

/// What `lex` returns on a string with characters `s`.
pub open spec fn spec_lex(s: Seq<char>) -> Seq<TokenModel> {
    words(s).map_values(|w: Seq<char>| classify(w))
}

proof fn lemma_word_len_run(t: Seq<char>, m: int)
    requires
        0 <= m <= t.len(),
        forall|k: int| 0 <= k < m ==> !is_space(#[trigger] t[k]),
        m == t.len() || is_space(t[m]),
    ensures
        word_len(t) == m,
    decreases m,
{
    if m > 0 {
        assert forall|k: int| 0 <= k < m - 1 implies !is_space(#[trigger] t.drop_first()[k]) by {
            assert(t.drop_first()[k] == t[k + 1]);
        }
        lemma_word_len_run(t.drop_first(), m - 1);
    }
}

/// Whether `cs[from..to]` is a decimal literal.
fn decimal_range(cs: &Vec<char>, from: usize, to: usize) -> (r: bool)
    requires
        from <= to <= cs@.len(),
    ensures
        r == is_decimal(cs@.subrange(from as int, to as int)),
{
    let ghost s = cs@.subrange(from as int, to as int);
    if from == to {
        return false;
    }
    let mut p = from;
    while p < to && is_digit_char(cs[p])
        invariant
            from <= p <= to <= cs@.len(),
            s == cs@.subrange(from as int, to as int),
            forall|k: int| from <= k < p ==> is_digit(#[trigger] cs@[k]),
        decreases to - p,
    {
        p = p + 1;
    }
    let ghost f = p - from;
    assert forall|k: int| 0 <= k < f implies is_digit(#[trigger] s[k]) by {
        assert(s[k] == cs@[from + k]);
    }
    if p == to {
        assert(all_digits(s));
        return true;
    }
    assert(!is_digit(s[f]));
    assert(!all_digits(s));
    // Any dot position that makes `s` a decimal must be the first non-digit.
    assert forall|d: int|
        0 < d < s.len() - 1 && #[trigger] s[d] == '.' && all_digits(s.take(d)) && all_digits(
            s.skip(d + 1),
        ) implies d == f by {
        if d < f {
            assert(is_digit(s[d]));
        } else if d > f {
            assert(s.take(d)[f] == s[f]);
        }
    }
    if cs[p] != '.' || p == from || p + 1 >= to {
        return false;
    }
    let mut q = p + 1;
    while q < to && is_digit_char(cs[q])
        invariant
            from < p,
            p + 1 <= q <= to <= cs@.len(),
            forall|k: int| p + 1 <= k < q ==> is_digit(#[trigger] cs@[k]),
        decreases to - q,
    {
        q = q + 1;
    }
    assert(all_digits(s.take(f))) by {
        assert forall|k: int| 0 <= k < f implies is_digit(#[trigger] s.take(f)[k]) by {
            assert(s.take(f)[k] == s[k]);
        }
    }
    if q == to {
        assert(all_digits(s.skip(f + 1))) by {
            assert forall|k: int| 0 <= k < s.skip(f + 1).len() implies is_digit(
                #[trigger] s.skip(f + 1)[k],
            ) by {
                assert(s.skip(f + 1)[k] == cs@[p + 1 + k]);
            }
        }
        assert(s[f] == '.');
        true
    } else {
        assert(!is_digit(s.skip(f + 1)[q - p - 1])) by {
            assert(s.skip(f + 1)[q - p - 1] == cs@[q as int]);
        }
        false
    }
}

fn currency_char(c: char) -> (r: Option<Currency>)
    ensures
        r == currency_of(c),
{
    if c == '$' {
        Some(Currency::Dollar)
    } else if c == '€' {
        Some(Currency::Euro)
    } else if c == '£' {
        Some(Currency::Pound)
    } else if c == '¥' {
        Some(Currency::Yen)
    } else {
        None
    }
}

fn slice_num<'a>(input: &'a str, from: usize, to: usize) -> (n: Num<'a>)
    requires
        from <= to <= input@.len(),
    ensures
        n@ == input@.subrange(from as int, to as int),
{
    Num { text: input.substring_char(from, to) }
}

/// The token for the word `cs[from..to]` of `input`.
fn classify_word<'a>(input: &'a str, cs: &Vec<char>, from: usize, to: usize) -> (t: Token<'a>)
    requires
        cs@ == input@,
        from < to <= cs@.len(),
    ensures
        t@ == classify(cs@.subrange(from as int, to as int)),
{
    let ghost w = cs@.subrange(from as int, to as int);
    let n = to - from;
    if lower_range_is(cs, from, to, "+") || lower_range_is(cs, from, to, "plus") {
        return Token::Op(ArithOp::Add);
    }
    if lower_range_is(cs, from, to, "-") || lower_range_is(cs, from, to, "minus") {
        return Token::Op(ArithOp::Sub);
    }
    if lower_range_is(cs, from, to, "*") || lower_range_is(cs, from, to, "×") {
        return Token::Op(ArithOp::Mul);
    }
    if lower_range_is(cs, from, to, "/") || lower_range_is(cs, from, to, "÷") {
        return Token::Op(ArithOp::Div);
    }
    if lower_range_is(cs, from, to, "times") || lower_range_is(cs, from, to, "time") {
        return Token::Times;
    }
    if lower_range_is(cs, from, to, "%") || lower_range_is(cs, from, to, "percent") {
        return Token::Percent;
    }
    if decimal_range(cs, from, to) {
        return Token::Number(slice_num(input, from, to));
    }
    proof {
        assert(w.take(n - 1) =~= cs@.subrange(from as int, to - 1));
        assert(w.skip(1) =~= cs@.subrange(from + 1, to as int));
        assert(w[n - 1] == cs@[to - 1]);
        assert(w[0] == cs@[from as int]);
    }
    if n > 1 && cs[to - 1] == '%' && decimal_range(cs, from, to - 1) {
        return Token::PercentValue(slice_num(input, from, to - 1));
    }
    if n > 1 && decimal_range(cs, from, to - 1) {
        if let Some(cur) = currency_char(cs[to - 1]) {
            return Token::Currency {
                value: slice_num(input, from, to - 1),
                cur,
                side: CurrencySide::Suffix,
            };
        }
    }
    if n > 1 && decimal_range(cs, from + 1, to) {
        if let Some(cur) = currency_char(cs[from]) {
            return Token::Currency {
                value: slice_num(input, from + 1, to),
                cur,
                side: CurrencySide::Prefix,
            };
        }
    }
    if n > 5 {
        proof {
            assert(w.skip(n - 5) =~= cs@.subrange(to - 5, to as int));
            assert(w.take(n - 5) =~= cs@.subrange(from as int, to - 5));
        }
        if lower_range_is(cs, to - 5, to, "times") && decimal_range(cs, from, to - 5) {
            return Token::Quantity(slice_num(input, from, to - 5));
        }
    }
    if n > 4 {
        proof {
            assert(w.skip(n - 4) =~= cs@.subrange(to - 4, to as int));
            assert(w.take(n - 4) =~= cs@.subrange(from as int, to - 4));
        }
        if lower_range_is(cs, to - 4, to, "time") && decimal_range(cs, from, to - 4) {
            return Token::Quantity(slice_num(input, from, to - 4));
        }
    }
    Token::Word(input.substring_char(from, to))
}

/// Splits `input` at whitespace and classifies each word: one token per word,
/// in order.
pub fn lex<'a>(input: &'a str) -> (ts: Vec<Token<'a>>)
    ensures
        views(ts@) == spec_lex(input@),
{
    let cs = crate::text::chars_of(input);
    let n = cs.len();
    let ghost s = input@;
    let ghost mut done: Seq<Seq<char>> = seq![];
    let mut ts: Vec<Token<'a>> = Vec::new();
    let mut i: usize = 0;
    assert(s.skip(0) =~= s);
    assert(done + words(s.skip(0)) =~= words(s));
    while i < n
        invariant
            cs@ == s,
            s == input@,
            n == s.len(),
            i <= n,
            words(s) == done + words(s.skip(i as int)),
            views(ts@) == done.map_values(|w: Seq<char>| classify(w)),
        decreases n - i,
    {
        if is_space_char(cs[i]) {
            assert(s.skip(i as int).drop_first() =~= s.skip(i + 1));
            i = i + 1;
        } else {
            let mut j = i + 1;
            while j < n && !is_space_char(cs[j])
                invariant
                    cs@ == s,
                    n == s.len(),
                    i < j <= n,
                    forall|k: int| i <= k < j ==> !is_space(#[trigger] s[k]),
                decreases n - j,
            {
                j = j + 1;
            }
            proof {
                let t = s.skip(i as int);
                assert forall|k: int| 0 <= k < j - i implies !is_space(#[trigger] t[k]) by {
                    assert(t[k] == s[i + k]);
                }
                lemma_word_len_run(t, j - i);
                assert(t.take(j - i) =~= s.subrange(i as int, j as int));
                assert(t.skip(j - i) =~= s.skip(j as int));
                assert(words(t) == seq![s.subrange(i as int, j as int)] + words(s.skip(j as int)));
            }
            let tok = classify_word(input, &cs, i, j);
            let ghost old_ts = ts@;
            ts.push(tok);
            proof {
                let w = s.subrange(i as int, j as int);
                assert(views(ts@) =~= views(old_ts).push(tok@));
                assert(done.push(w).map_values(|w: Seq<char>| classify(w)) =~= done.map_values(
                    |w: Seq<char>| classify(w),
                ).push(classify(w)));
                assert(done + words(s.skip(i as int)) =~= done.push(w) + words(s.skip(j as int)));
                done = done.push(w);
                assert(views(ts@) =~= done.map_values(|w: Seq<char>| classify(w)));
            }
            i = j;
        }
    }
    proof {
        assert(s.skip(n as int) =~= Seq::<char>::empty());
        assert(done + words(s.skip(n as int)) =~= done);
    }
    ts
}

/// Words that count items after a number (`3 copies`).
pub open spec fn spec_is_count_unit(w: Seq<char>) -> bool {
    let l = lower(w);
    l == "item"@ || l == "items"@ || l == "copy"@ || l == "copies"@ || l == "piece"@
        || l == "pieces"@ || l == "unit"@ || l == "units"@ || l == "pcs"@
}

pub fn is_count_unit(w: &str) -> (r: bool)
    ensures
        r == spec_is_count_unit(w@),
{
    lower_is(w, "item") || lower_is(w, "items") || lower_is(w, "copy") || lower_is(w, "copies")
        || lower_is(w, "piece") || lower_is(w, "pieces") || lower_is(w, "unit") || lower_is(
        w,
        "units",
    ) || lower_is(w, "pcs")
}

} // verus!
