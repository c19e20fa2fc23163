//! Operand extraction: walks the tokens left to right, sorting amounts into
//! numbers, quantities, prices and percents, and resolving `N times M`
//! (multiplication) against `N times` (a quantity).

use vstd::prelude::*;

use crate::lexer::{is_count_unit, spec_is_count_unit, views, Num, Token, TokenModel};
use crate::text::{lower, lower_is};
use crate::{ArithOp, Currency, CurrencySide};

verus! {

#[derive(Debug)]
pub struct Operands<'a> {
    pub quantities: Vec<Num<'a>>,
    pub prices: Vec<(Num<'a>, Currency)>,
    pub numbers: Vec<Num<'a>>,
    pub ops: Vec<ArithOp>,
    pub percents: Vec<Num<'a>>,
    pub has_percent: bool,
    pub has_of: bool,
    pub has_avg: bool,
    pub has_total: bool,
    pub has_sum: bool,
    /// The currency of the first price, with the side its symbol stood on.
    pub currency: Option<Currency>,
    pub side: CurrencySide,
}

/// Operands with every amount taken as its literal text.
#[verifier::ext_equal]
pub struct OperandsModel {
    pub quantities: Seq<Seq<char>>,
    pub prices: Seq<(Seq<char>, Currency)>,
    pub numbers: Seq<Seq<char>>,
    pub ops: Seq<ArithOp>,
    pub percents: Seq<Seq<char>>,
    pub has_percent: bool,
    pub has_of: bool,
    pub has_avg: bool,
    pub has_total: bool,
    pub has_sum: bool,
    pub currency: Option<Currency>,
    pub side: CurrencySide,
}

pub open spec fn num_views<'a>(ns: Seq<Num<'a>>) -> Seq<Seq<char>> {
    ns.map_values(|n: Num<'a>| n@)
}

pub open spec fn price_views<'a>(ps: Seq<(Num<'a>, Currency)>) -> Seq<(Seq<char>, Currency)> {
    ps.map_values(|p: (Num<'a>, Currency)| (p.0@, p.1))
}

impl<'a> View for Operands<'a> {
    type V = OperandsModel;

    open spec fn view(&self) -> OperandsModel {
        OperandsModel {
            quantities: num_views(self.quantities@),
            prices: price_views(self.prices@),
            numbers: num_views(self.numbers@),
            ops: self.ops@,
            percents: num_views(self.percents@),
            has_percent: self.has_percent,
            has_of: self.has_of,
            has_avg: self.has_avg,
            has_total: self.has_total,
            has_sum: self.has_sum,
            currency: self.currency,
            side: self.side,
        }
    }
}

pub open spec fn empty_operands() -> OperandsModel {
    OperandsModel {
        quantities: seq![],
        prices: seq![],
        numbers: seq![],
        ops: seq![],
        percents: seq![],
        has_percent: false,
        has_of: false,
        has_avg: false,
        has_total: false,
        has_sum: false,
        currency: None,
        side: CurrencySide::Suffix,
    }
}

impl<'a> Default for Operands<'a> {
    fn default() -> (o: Self)
        ensures
            o@ == empty_operands(),
    {
        let o = Operands {
            quantities: Vec::new(),
            prices: Vec::new(),
            numbers: Vec::new(),
            ops: Vec::new(),
            percents: Vec::new(),
            has_percent: false,
            has_of: false,
            has_avg: false,
            has_total: false,
            has_sum: false,
            currency: None,
            side: CurrencySide::Suffix,
        };
        assert(o@ =~= empty_operands());
        o
    }
}

/// The cue a plain word gives: `of`, `average`, a totalling word, or a
/// summing conjunction (compared ASCII case-insensitively).
pub open spec fn word_cue(w: Seq<char>, o: OperandsModel) -> OperandsModel {
    let l = lower(w);
    if l == "of"@ {
        OperandsModel { has_of: true, ..o }
    } else if l == "by"@ {
        o
    } else if l == "average"@ || l == "avg"@ || l == "mean"@ {
        OperandsModel { has_avg: true, ..o }
    } else if l == "total"@ || l == "altogether"@ || l == "price"@ || l == "cost"@ || l == "sum"@
        || l == "add"@ {
        OperandsModel { has_total: true, ..o }
    } else if l == "plus"@ || l == "and"@ {
        OperandsModel { has_sum: true, ..o }
    } else {
        o
    }
}

pub open spec fn push_number(o: OperandsModel, n: Seq<char>) -> OperandsModel {
    OperandsModel { numbers: o.numbers.push(n), ..o }
}

pub open spec fn push_quantity(o: OperandsModel, n: Seq<char>) -> OperandsModel {
    OperandsModel { quantities: o.quantities.push(n), ..o }
}

pub open spec fn push_op(o: OperandsModel, op: ArithOp) -> OperandsModel {
    OperandsModel { ops: o.ops.push(op), ..o }
}

/// The walk from token `i` on, starting from operands `o`.
pub open spec fn walk(t: Seq<TokenModel>, i: int, o: OperandsModel) -> OperandsModel
    decreases t.len() - i,
{
    if i < 0 || i >= t.len() {
        o
    } else {
        match t[i] {
            TokenModel::Number(n) => {
                if i + 1 < t.len() && t[i + 1] is Times {
                    if i + 2 < t.len() && t[i + 2] is Number {
                        walk(t, i + 2, push_op(push_number(o, n), ArithOp::Mul))
                    } else {
                        walk(t, i + 2, push_quantity(o, n))
                    }
                } else if i + 1 < t.len() && (t[i + 1] matches TokenModel::Word(w)
                    && spec_is_count_unit(w)) {
                    walk(t, i + 2, push_quantity(o, n))
                } else {
                    walk(t, i + 1, push_number(o, n))
                }
            },
            TokenModel::Quantity(q) => walk(t, i + 1, push_quantity(o, q)),
            TokenModel::Currency { value, cur, side } => {
                let o1 = OperandsModel { prices: o.prices.push((value, cur)), ..o };
                let o2 = if o.currency is None {
                    OperandsModel { currency: Some(cur), side: side, ..o1 }
                } else {
                    o1
                };
                walk(t, i + 1, o2)
            },
            TokenModel::PercentValue(v) => walk(
                t,
                i + 1,
                OperandsModel { percents: o.percents.push(v), has_percent: true, ..o },
            ),
            TokenModel::Percent => walk(t, i + 1, OperandsModel { has_percent: true, ..o }),
            TokenModel::Op(op) => walk(t, i + 1, push_op(o, op)),
            TokenModel::Word(w) => walk(t, i + 1, word_cue(w, o)),
            TokenModel::Times => walk(t, i + 1, push_op(o, ArithOp::Mul)),
        }
    }
}

/// What `extract` returns for tokens `t`.
pub open spec fn spec_extract(t: Seq<TokenModel>) -> OperandsModel {
    walk(t, 0, empty_operands())
}

fn classify_word<'a>(w: &str, o: &mut Operands<'a>)
    ensures
        final(o)@ == word_cue(w@, old(o)@),
{
    if lower_is(w, "of") {
        o.has_of = true;
    } else if lower_is(w, "by") {
    } else if lower_is(w, "average") || lower_is(w, "avg") || lower_is(w, "mean") {
        o.has_avg = true;
    } else if lower_is(w, "total") || lower_is(w, "altogether") || lower_is(w, "price") || lower_is(
        w,
        "cost",
    ) || lower_is(w, "sum") || lower_is(w, "add") {
        o.has_total = true;
    } else if lower_is(w, "plus") || lower_is(w, "and") {
        o.has_sum = true;
    }
}

/// One step of the walk at a number token: consumes the number and, where it
/// is followed by `times` or a count unit, that word too.
fn number_step<'a>(tokens: &[Token<'a>], i: usize, n: Num<'a>, o: &mut Operands<'a>) -> (next:
    usize)
    requires
        i < tokens.len(),
        tokens@[i as int] == Token::Number(n),
    ensures
        i < next <= tokens.len(),
        walk(views(tokens@), next as int, final(o)@) == walk(views(tokens@), i as int, old(o)@),
{
    let ghost t = views(tokens@);
    let ghost o0 = o@;
    assert(t[i as int] == tokens@[i as int]@);
    if i + 1 < tokens.len() {
        assert(t[i + 1] == tokens@[i + 1]@);
        if i + 2 < tokens.len() {
            assert(t[i + 2] == tokens@[i + 2]@);
        }
        if matches!(tokens[i + 1], Token::Times) {
            if i + 2 < tokens.len() && matches!(tokens[i + 2], Token::Number(_)) {
                o.numbers.push(n);
                o.ops.push(ArithOp::Mul);
                assert(o@ =~= push_op(push_number(o0, n@), ArithOp::Mul));
                return i + 2;
            }
            o.quantities.push(n);
            assert(o@ =~= push_quantity(o0, n@));
            return i + 2;
        }
        if let Token::Word(w) = tokens[i + 1] {
            if is_count_unit(w) {
                o.quantities.push(n);
                assert(o@ =~= push_quantity(o0, n@));
                return i + 2;
            }
        }
    }
    o.numbers.push(n);
    assert(o@ =~= push_number(o0, n@));
    i + 1
}

/// One step of the walk at token `i`.
fn step<'a>(tokens: &[Token<'a>], i: usize, o: &mut Operands<'a>) -> (next: usize)
    requires
        i < tokens.len(),
    ensures
        i < next <= tokens.len(),
        walk(views(tokens@), next as int, final(o)@) == walk(views(tokens@), i as int, old(o)@),
{
    let ghost t = views(tokens@);
    let ghost o0 = o@;
    assert(t[i as int] == tokens@[i as int]@);
    match tokens[i] {
        Token::Number(n) => {
            return number_step(tokens, i, n, o);
        },
        Token::Quantity(q) => {
            o.quantities.push(q);
            assert(o@ =~= push_quantity(o0, q@));
        },
        Token::Currency { value, cur, side } => {
            o.prices.push((value, cur));
            if o.currency.is_none() {
                o.currency = Some(cur);
                o.side = side;
            }
            assert(o@.prices =~= o0.prices.push((value@, cur)));
        },
        Token::PercentValue(v) => {
            o.percents.push(v);
            o.has_percent = true;
            assert(o@.percents =~= o0.percents.push(v@));
        },
        Token::Percent => {
            o.has_percent = true;
        },
        Token::Op(op) => {
            o.ops.push(op);
            assert(o@ =~= push_op(o0, op));
        },
        Token::Word(w) => {
            classify_word(w, o);
        },
        Token::Times => {
            o.ops.push(ArithOp::Mul);
            assert(o@ =~= push_op(o0, ArithOp::Mul));
        },
    }
    i + 1
}

/// Sorts the amounts of `tokens` into operands; see `walk`.
pub fn extract<'a>(tokens: &[Token<'a>]) -> (o: Operands<'a>)
    ensures
        o@ == spec_extract(views(tokens@)),
{
    let mut o = Operands::default();
    let mut i: usize = 0;
    while i < tokens.len()
        invariant
            i <= tokens.len(),
            walk(views(tokens@), i as int, o@) == spec_extract(views(tokens@)),
        decreases tokens.len() - i,
    {
        i = step(tokens, i, &mut o);
    }
    o
}

} // verus!
