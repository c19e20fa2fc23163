//! Properties that span the stages of the calculator.

use vstd::prelude::*;

use crate::extract::{empty_operands, push_number, push_op, push_quantity, spec_extract, walk, word_cue, OperandsModel};
use crate::intent::{all_pairs, price_values, spec_resolve, ComputationModel};
use crate::lexer::{all_digits, classify, is_decimal, spec_is_count_unit, spec_lex, words, TokenModel};
use crate::plausibility::{is_anchor_token, spec_is_plausible_math};
use crate::text::lower;
use crate::transformer::{digit_of, first_op, op_of, spec_nl_op, spec_parse_seq, OpIdx};
use crate::engine::{spec_answer_form, spec_label_of};
use crate::plausibility::spec_is_math_keyword;
use crate::text::is_digit;
use crate::{spec_plan_tokens, ArithOp, Currency, CurrencySide};

verus! {

/// Whether the amount of the number or quantity token at `i` is counted as a
/// quantity: a quantity token, or a number followed by `times` that no number
/// follows, or followed by a count unit.
pub open spec fn quantity_at(t: Seq<TokenModel>, i: int) -> bool {
    ||| t[i] is Quantity
    ||| t[i] is Number && i + 1 < t.len() && (t[i + 1] is Times && !(i + 2 < t.len()
        && t[i + 2] is Number) || (t[i + 1] matches TokenModel::Word(w) && spec_is_count_unit(w)))
}

/// The plain amounts (numbers and quantities) of `t` from position `i` on.
pub open spec fn amounts_from(t: Seq<TokenModel>, i: int) -> Seq<Seq<char>>
    decreases t.len() - i,
{
    if i < 0 || i >= t.len() {
        seq![]
    } else {
        (match t[i] {
            TokenModel::Number(n) => seq![n],
            TokenModel::Quantity(n) => seq![n],
            _ => seq![],
        }) + amounts_from(t, i + 1)
    }
}

/// The amounts from position `i` on that are counted as numbers, in order.
pub open spec fn numbers_from(t: Seq<TokenModel>, i: int) -> Seq<Seq<char>>
    decreases t.len() - i,
{
    if i < 0 || i >= t.len() {
        seq![]
    } else {
        (match t[i] {
            TokenModel::Number(n) => if quantity_at(t, i) {
                seq![]
            } else {
                seq![n]
            },
            _ => seq![],
        }) + numbers_from(t, i + 1)
    }
}

/// The amounts from position `i` on that are counted as quantities, in order.
pub open spec fn quantities_from(t: Seq<TokenModel>, i: int) -> Seq<Seq<char>>
    decreases t.len() - i,
{
    if i < 0 || i >= t.len() {
        seq![]
    } else {
        (match t[i] {
            TokenModel::Number(n) => if quantity_at(t, i) {
                seq![n]
            } else {
                seq![]
            },
            TokenModel::Quantity(n) => seq![n],
            _ => seq![],
        }) + quantities_from(t, i + 1)
    }
}

/// The currency amounts from position `i` on, in order.
pub open spec fn prices_from(t: Seq<TokenModel>, i: int) -> Seq<(Seq<char>, Currency)>
    decreases t.len() - i,
{
    if i < 0 || i >= t.len() {
        seq![]
    } else {
        (match t[i] {
            TokenModel::Currency { value, cur, .. } => seq![(value, cur)],
            _ => seq![],
        }) + prices_from(t, i + 1)
    }
}

/// The percent amounts from position `i` on, in order.
pub open spec fn percents_from(t: Seq<TokenModel>, i: int) -> Seq<Seq<char>>
    decreases t.len() - i,
{
    if i < 0 || i >= t.len() {
        seq![]
    } else {
        (match t[i] {
            TokenModel::PercentValue(n) => seq![n],
            _ => seq![],
        }) + percents_from(t, i + 1)
    }
}

/// The currency and side of the first currency amount from position `i` on.
pub open spec fn first_currency_from(t: Seq<TokenModel>, i: int) -> Option<
    (Currency, CurrencySide),
>
    decreases t.len() - i,
{
    if i < 0 || i >= t.len() {
        None
    } else {
        match t[i] {
            TokenModel::Currency { cur, side, .. } => Some((cur, side)),
            _ => first_currency_from(t, i + 1),
        }
    }
}

proof fn lemma_word_cue_keeps(w: Seq<char>, o: OperandsModel)
    ensures
        word_cue(w, o).numbers == o.numbers,
        word_cue(w, o).quantities == o.quantities,
        word_cue(w, o).prices == o.prices,
        word_cue(w, o).percents == o.percents,
        word_cue(w, o).currency == o.currency,
        word_cue(w, o).side == o.side,
{
}

/// What the walk from position `i` adds to operands `o`.
pub open spec fn walk_tracks(t: Seq<TokenModel>, i: int, o: OperandsModel) -> bool {
    let w = walk(t, i, o);
    &&& w.numbers == o.numbers + numbers_from(t, i)
    &&& w.quantities == o.quantities + quantities_from(t, i)
    &&& w.prices == o.prices + prices_from(t, i)
    &&& w.percents == o.percents + percents_from(t, i)
    &&& w.currency == if o.currency is Some {
        o.currency
    } else {
        match first_currency_from(t, i) {
            Some((c, _)) => Some(c),
            None => None,
        }
    }
    &&& w.side == if o.currency is Some {
        o.side
    } else {
        match first_currency_from(t, i) {
            Some((_, side)) => side,
            None => o.side,
        }
    }
}

/// A word or `times` after position `i` adds no amount and names no currency.
proof fn lemma_skip_adds_nothing(t: Seq<TokenModel>, i: int)
    requires
        0 <= i < t.len(),
    ensures
        i + 1 < t.len() && !(t[i + 1] is Number || t[i + 1] is Quantity || t[i + 1] is Currency
            || t[i + 1] is PercentValue) ==> {
            &&& numbers_from(t, i + 1) == numbers_from(t, i + 2)
            &&& quantities_from(t, i + 1) == quantities_from(t, i + 2)
            &&& prices_from(t, i + 1) == prices_from(t, i + 2)
            &&& percents_from(t, i + 1) == percents_from(t, i + 2)
            &&& first_currency_from(t, i + 1) == first_currency_from(t, i + 2)
        },
{
}

#[verifier::spinoff_prover]
proof fn lemma_walk_tracks_number(t: Seq<TokenModel>, i: int, o: OperandsModel, n: Seq<char>)
    requires
        0 <= i < t.len(),
        t[i] == TokenModel::Number(n),
    ensures
        walk_tracks(t, i, o),
    decreases t.len() - i, 0int,
{
    lemma_skip_adds_nothing(t, i);
    if i + 1 < t.len() && t[i + 1] is Times {
        if i + 2 < t.len() && t[i + 2] is Number {
            let o2 = push_op(push_number(o, n), ArithOp::Mul);
            lemma_walk_tracks(t, i + 2, o2);
            assert(o2.numbers + numbers_from(t, i + 2) =~= o.numbers + numbers_from(t, i));
            assert(o2.quantities + quantities_from(t, i + 2) =~= o.quantities + quantities_from(t, i));
        } else {
            let o2 = push_quantity(o, n);
            lemma_walk_tracks(t, i + 2, o2);
            assert(o2.numbers + numbers_from(t, i + 2) =~= o.numbers + numbers_from(t, i));
            assert(o2.quantities + quantities_from(t, i + 2) =~= o.quantities + quantities_from(t, i));
        }
    } else if i + 1 < t.len() && (t[i + 1] matches TokenModel::Word(w)
        && spec_is_count_unit(w)) {
        let o2 = push_quantity(o, n);
        lemma_walk_tracks(t, i + 2, o2);
        assert(o2.numbers + numbers_from(t, i + 2) =~= o.numbers + numbers_from(t, i));
        assert(o2.quantities + quantities_from(t, i + 2) =~= o.quantities + quantities_from(t, i));
    } else {
        let o2 = push_number(o, n);
        lemma_walk_tracks(t, i + 1, o2);
        assert(o2.numbers + numbers_from(t, i + 1) =~= o.numbers + numbers_from(t, i));
    }
    assert(o.prices + prices_from(t, i) =~= o.prices + prices_from(t, i + 1));
    assert(o.percents + percents_from(t, i) =~= o.percents + percents_from(t, i + 1));
}

#[verifier::spinoff_prover]
proof fn lemma_walk_tracks(t: Seq<TokenModel>, i: int, o: OperandsModel)
    requires
        0 <= i <= t.len(),
    ensures
        walk_tracks(t, i, o),
    decreases t.len() - i, 1int,
{
    if i < t.len() {
        match t[i] {
            TokenModel::Number(n) => lemma_walk_tracks_number(t, i, o, n),
            TokenModel::Quantity(q) => {
                let o2 = push_quantity(o, q);
                lemma_walk_tracks(t, i + 1, o2);
                assert(o2.quantities + quantities_from(t, i + 1) =~= o.quantities + quantities_from(t, i));
                assert(o.numbers + numbers_from(t, i) =~= o.numbers + numbers_from(t, i + 1));
            },
            TokenModel::Currency { value, cur, side } => {
                let o1 = OperandsModel { prices: o.prices.push((value, cur)), ..o };
                let o2 = if o.currency is None {
                    OperandsModel { currency: Some(cur), side: side, ..o1 }
                } else {
                    o1
                };
                lemma_walk_tracks(t, i + 1, o2);
                assert(o2.prices + prices_from(t, i + 1) =~= o.prices + prices_from(t, i));
                assert(o.numbers + numbers_from(t, i) =~= o.numbers + numbers_from(t, i + 1));
                assert(o.quantities + quantities_from(t, i) =~= o.quantities + quantities_from(t, i + 1));
            },
            TokenModel::PercentValue(v) => {
                let o2 = OperandsModel { percents: o.percents.push(v), has_percent: true, ..o };
                lemma_walk_tracks(t, i + 1, o2);
                assert(o2.percents + percents_from(t, i + 1) =~= o.percents + percents_from(t, i));
                assert(o.numbers + numbers_from(t, i) =~= o.numbers + numbers_from(t, i + 1));
                assert(o.quantities + quantities_from(t, i) =~= o.quantities + quantities_from(t, i + 1));
            },
            _ => {
                let o2 = match t[i] {
                    TokenModel::Percent => OperandsModel { has_percent: true, ..o },
                    TokenModel::Op(op) => push_op(o, op),
                    TokenModel::Word(w) => word_cue(w, o),
                    _ => push_op(o, ArithOp::Mul),
                };
                if let TokenModel::Word(w) = t[i] {
                    lemma_word_cue_keeps(w, o);
                }
                lemma_walk_tracks(t, i + 1, o2);
                assert(o.numbers + numbers_from(t, i) =~= o.numbers + numbers_from(t, i + 1));
                assert(o.quantities + quantities_from(t, i) =~= o.quantities + quantities_from(t, i + 1));
            },
        }
    }
}

/// Extraction keeps every amount, in input order: the numbers are the plain
/// amounts not counted as quantities, the quantities are the rest (see
/// `quantity_at`), the prices and percents are every currency and percent
/// amount, and the currency and its side are those of the first currency
/// amount (none, written as a suffix, when there is none).
pub proof fn law_extract_orders_amounts(t: Seq<TokenModel>)
    ensures
        spec_extract(t).numbers == numbers_from(t, 0),
        spec_extract(t).quantities == quantities_from(t, 0),
        spec_extract(t).prices == prices_from(t, 0),
        spec_extract(t).percents == percents_from(t, 0),
        spec_extract(t).currency == match first_currency_from(t, 0) {
            Some((c, _)) => Some(c),
            None => None,
        },
        spec_extract(t).side == match first_currency_from(t, 0) {
            Some((_, side)) => side,
            None => CurrencySide::Suffix,
        },
{
    lemma_walk_tracks(t, 0, empty_operands());
    let e = empty_operands();
    assert(e.numbers + numbers_from(t, 0) =~= numbers_from(t, 0));
    assert(e.quantities + quantities_from(t, 0) =~= quantities_from(t, 0));
    assert(e.prices + prices_from(t, 0) =~= prices_from(t, 0));
    assert(e.percents + percents_from(t, 0) =~= percents_from(t, 0));
}

proof fn lemma_amounts_split(t: Seq<TokenModel>, i: int)
    requires
        0 <= i <= t.len(),
    ensures
        numbers_from(t, i).len() + quantities_from(t, i).len() == amounts_from(t, i).len(),
    decreases t.len() - i,
{
    if i < t.len() {
        lemma_amounts_split(t, i + 1);
    }
}

/// Extraction loses no plain amount: the numbers and the quantities together
/// hold as many amounts as the input has number and quantity tokens.
pub proof fn law_extract_keeps_every_amount(t: Seq<TokenModel>)
    ensures
        spec_extract(t).numbers.len() + spec_extract(t).quantities.len() == amounts_from(t, 0).len(),
{
    law_extract_orders_amounts(t);
    lemma_amounts_split(t, 0);
}

/// Operands whose currency is that of their first price, and unset exactly
/// when they have no price.
pub open spec fn currency_follows_first_price(o: OperandsModel) -> bool {
    &&& (o.prices.len() == 0 <==> o.currency is None)
    &&& o.prices.len() > 0 ==> o.currency == Some(o.prices[0].1)
}

proof fn lemma_first_currency_is_first_price(t: Seq<TokenModel>, i: int)
    requires
        0 <= i <= t.len(),
    ensures
        first_currency_from(t, i) is None <==> prices_from(t, i).len() == 0,
        first_currency_from(t, i) matches Some((c, _)) ==> prices_from(t, i)[0].1 == c,
    decreases t.len() - i,
{
    if i < t.len() {
        lemma_first_currency_is_first_price(t, i + 1);
    }
}

/// The currency of the operands is the currency of the first price in the
/// input, and there is one exactly when the input has a price.
pub proof fn law_currency_is_first_price(t: Seq<TokenModel>)
    ensures
        currency_follows_first_price(spec_extract(t)),
{
    law_extract_orders_amounts(t);
    lemma_first_currency_is_first_price(t, 0);
}

/// A total cost is stated in the currency of the first price, written on the
/// side where that price had its symbol; no default currency is ever needed.
pub proof fn law_total_cost_in_first_price_currency(t: Seq<TokenModel>)
    ensures
        spec_resolve(spec_extract(t)) matches ComputationModel::TotalCost { currency, side, .. }
            ==> spec_extract(t).prices.len() > 0 && currency == spec_extract(t).prices[0].1
            && side == spec_extract(t).side,
{
    law_currency_is_first_price(t);
}

proof fn lemma_first_op_anchor(t: Seq<TokenModel>)
    ensures
        first_op(t) is Some ==> exists|i: int| 0 <= i < t.len() && is_anchor_token(#[trigger] t[i]),
    decreases t.len(),
{
    if t.len() > 0 {
        lemma_first_op_anchor(t.drop_last());
        if first_op(t.drop_last()) is Some {
            let i = choose|i: int| 0 <= i < t.drop_last().len() && is_anchor_token(
                #[trigger] t.drop_last()[i],
            );
            assert(t[i] == t.drop_last()[i]);
        } else if op_of(t.last()) is Some {
            assert(is_anchor_token(t[t.len() - 1]));
        }
    }
}

/// Whatever the transformer can read passes the plausibility gate: its
/// operator token is always a strong anchor.
pub proof fn law_transformer_input_is_plausible(t: Seq<TokenModel>, o: OperandsModel)
    ensures
        spec_parse_seq(t) is Some ==> spec_is_plausible_math(t, o),
{
    lemma_first_op_anchor(t);
}

/// The transformer only ever sees single digits.
pub proof fn law_transformer_operands_are_digits(t: Seq<TokenModel>)
    ensures
        spec_parse_seq(t) matches Some((a, op, b)) ==> a <= 9 && b <= 9,
{
    let ns = crate::transformer::operand_texts(t);
    crate::transformer::lemma_first_op_implicit(t);
    if ns.len() > 0 {
        crate::transformer::lemma_digit_of_small(ns[0]);
    }
    if ns.len() > 1 {
        crate::transformer::lemma_digit_of_small(ns[1]);
    }
}

/// `N times M` is a multiplication of the two numbers.
pub proof fn law_times_between_numbers_multiplies(a: Seq<char>, b: Seq<char>)
    ensures
        spec_resolve(
            spec_extract(seq![TokenModel::Number(a), TokenModel::Times, TokenModel::Number(b)]),
        ) == (ComputationModel::Arith {
            op: ArithOp::Mul,
            values: seq![a, b],
            currency: None,
            side: CurrencySide::Suffix,
        }),
{
    let t = seq![TokenModel::Number(a), TokenModel::Times, TokenModel::Number(b)];
    let o = push_op(push_number(empty_operands(), a), ArithOp::Mul);
    assert(walk(t, 0, empty_operands()) == walk(t, 2, o));
    assert(walk(t, 2, o) == walk(t, 3, push_number(o, b)));
    assert(spec_extract(t).numbers =~= seq![a, b]);
    assert(spec_extract(t).ops =~= seq![ArithOp::Mul]);
}

/// `N times` followed by a price counts N items at that price.
pub proof fn law_times_before_price_is_quantity(
    n: Seq<char>,
    v: Seq<char>,
    cur: crate::Currency,
    side: CurrencySide,
)
    ensures
        spec_resolve(
            spec_extract(
                seq![
                    TokenModel::Number(n),
                    TokenModel::Times,
                    TokenModel::Currency { value: v, cur, side },
                ],
            ),
        ) == (ComputationModel::TotalCost { items: seq![(n, v)], currency: cur, side }),
{
    let t = seq![TokenModel::Number(n), TokenModel::Times, TokenModel::Currency { value: v, cur, side }];
    let o = push_quantity(empty_operands(), n);
    assert(walk(t, 0, empty_operands()) == walk(t, 2, o));
    let o1 = OperandsModel { prices: o.prices.push((v, cur)), ..o };
    let o2 = OperandsModel { currency: Some(cur), side: side, ..o1 };
    assert(walk(t, 2, o) == walk(t, 3, o2));
    assert(spec_extract(t).quantities =~= seq![n]);
    assert(spec_extract(t).prices =~= seq![(v, cur)]);
    assert(crate::intent::price_values(spec_extract(t).prices) =~= seq![v]);
    assert(crate::intent::cost_items(seq![n], seq![v]) =~= seq![(n, v)]);
}

/// The literal text of a token's amount, if it carries one.
pub open spec fn amount_text(t: TokenModel) -> Option<Seq<char>> {
    match t {
        TokenModel::Number(n) => Some(n),
        TokenModel::Quantity(n) => Some(n),
        TokenModel::PercentValue(n) => Some(n),
        TokenModel::Currency { value, .. } => Some(value),
        _ => None,
    }
}

pub open spec fn tokens_decimal(t: Seq<TokenModel>) -> bool {
    forall|i: int| 0 <= i < t.len() ==> (#[trigger] amount_text(t[i]) matches Some(n) ==> is_decimal(n))
}

pub open spec fn all_decimal(ns: Seq<Seq<char>>) -> bool {
    forall|i: int| 0 <= i < ns.len() ==> is_decimal(#[trigger] ns[i])
}

pub open spec fn computation_decimal(c: ComputationModel) -> bool {
    match c {
        ComputationModel::TotalCost { items, .. } => forall|i: int|
            0 <= i < items.len() ==> is_decimal(#[trigger] items[i].0) && is_decimal(items[i].1),
        ComputationModel::Arith { values, .. } => all_decimal(values),
        ComputationModel::Average { values } => all_decimal(values),
        ComputationModel::PercentOf { rate, base } => is_decimal(rate) && is_decimal(base),
        ComputationModel::Single { value, .. } => is_decimal(value),
        ComputationModel::Unknown => true,
    }
}

/// Every amount the lexer produces is a decimal literal.
pub proof fn law_lexed_amounts_are_decimal(s: Seq<char>)
    ensures
        tokens_decimal(spec_lex(s)),
{
    let t = spec_lex(s);
    assert forall|i: int| 0 <= i < t.len() implies (#[trigger] amount_text(t[i]) matches Some(n)
        ==> is_decimal(n)) by {
        assert(t[i] == classify(words(s)[i]));
    }
}

#[verifier::spinoff_prover]
proof fn lemma_from_decimal(t: Seq<TokenModel>, i: int)
    requires
        0 <= i <= t.len(),
        tokens_decimal(t),
    ensures
        all_decimal(numbers_from(t, i)),
        all_decimal(quantities_from(t, i)),
        all_decimal(percents_from(t, i)),
        all_decimal(price_values(prices_from(t, i))),
    decreases t.len() - i,
{
    if i < t.len() {
        lemma_from_decimal(t, i + 1);
        assert(amount_text(t[i]) matches Some(n) ==> is_decimal(n));
        let ps = prices_from(t, i);
        let ps1 = prices_from(t, i + 1);
        assert forall|k: int| 0 <= k < numbers_from(t, i).len() implies is_decimal(
            #[trigger] numbers_from(t, i)[k],
        ) by {
            let head = numbers_from(t, i).len() - numbers_from(t, i + 1).len();
            if k >= head {
                assert(numbers_from(t, i)[k] == numbers_from(t, i + 1)[k - head]);
            }
        }
        assert forall|k: int| 0 <= k < quantities_from(t, i).len() implies is_decimal(
            #[trigger] quantities_from(t, i)[k],
        ) by {
            let head = quantities_from(t, i).len() - quantities_from(t, i + 1).len();
            if k >= head {
                assert(quantities_from(t, i)[k] == quantities_from(t, i + 1)[k - head]);
            }
        }
        assert forall|k: int| 0 <= k < percents_from(t, i).len() implies is_decimal(
            #[trigger] percents_from(t, i)[k],
        ) by {
            let head = percents_from(t, i).len() - percents_from(t, i + 1).len();
            if k >= head {
                assert(percents_from(t, i)[k] == percents_from(t, i + 1)[k - head]);
            }
        }
        assert forall|k: int| 0 <= k < price_values(ps).len() implies is_decimal(
            #[trigger] price_values(ps)[k],
        ) by {
            let head = ps.len() - ps1.len();
            if k >= head {
                assert(ps[k] == ps1[k - head]);
                assert(price_values(ps1)[k - head] == ps1[k - head].0);
            }
        }
    }
}

proof fn lemma_all_pairs_decimal(q: Seq<Seq<char>>, p: Seq<Seq<char>>)
    requires
        all_decimal(q),
        all_decimal(p),
    ensures
        forall|i: int|
            0 <= i < all_pairs(q, p).len() ==> is_decimal(#[trigger] all_pairs(q, p)[i].0)
                && is_decimal(all_pairs(q, p)[i].1),
    decreases q.len(),
{
    if q.len() > 0 {
        let q0 = q.drop_last();
        assert forall|i: int| 0 <= i < q0.len() implies is_decimal(#[trigger] q0[i]) by {
            assert(q0[i] == q[i]);
        }
        lemma_all_pairs_decimal(q0, p);
        let left = all_pairs(q0, p);
        let right = p.map_values(|x: Seq<char>| (q.last(), x));
        assert(is_decimal(q[q.len() - 1]));
        assert forall|i: int| 0 <= i < all_pairs(q, p).len() implies is_decimal(
            #[trigger] all_pairs(q, p)[i].0,
        ) && is_decimal(all_pairs(q, p)[i].1) by {
            if i < left.len() {
                assert(all_pairs(q, p)[i] == left[i]);
            } else {
                assert(all_pairs(q, p)[i] == right[i - left.len()]);
                assert(is_decimal(p[i - left.len()]));
            }
        }
    }
}

/// Every amount in a resolved computation is a decimal literal of the input,
/// so reading each amount's value never fails.
#[verifier::spinoff_prover]
pub proof fn law_planned_amounts_are_decimal(s: Seq<char>)
    ensures
        computation_decimal(spec_resolve(spec_extract(spec_lex(s)))),
{
    let t = spec_lex(s);
    law_lexed_amounts_are_decimal(s);
    law_extract_orders_amounts(t);
    lemma_from_decimal(t, 0);
    let o = spec_extract(t);
    let q = o.quantities;
    let p = price_values(o.prices);
    assert(all_decimal(o.numbers) && all_decimal(q) && all_decimal(p) && all_decimal(o.percents));
    lemma_all_pairs_decimal(q, p);
    let z = Seq::new(q.len(), |k: int| (q[k], p[k]));
    if q.len() == p.len() {
        assert forall|i: int| 0 <= i < z.len() implies is_decimal(#[trigger] z[i].0) && is_decimal(
            z[i].1,
        ) by {
            assert(is_decimal(q[i]) && is_decimal(p[i]));
        }
    }
    let vl = crate::intent::spec_value_list(o);
    assert(all_decimal(vl));
    if o.percents.len() > 0 && o.numbers.len() > 0 {
        assert(is_decimal(o.percents[0]) && is_decimal(o.numbers[0]));
    }
    if vl.len() > 0 {
        assert(is_decimal(vl[0]));
    }
}

/// The operation words name their operations: `buy get gain receive` add,
/// `eat lose give take spend drop` subtract, `double` and `triple` multiply by
/// 2 and 3, and no other word names an operation.
#[verifier::spinoff_prover]
pub proof fn law_operation_words(w: Seq<char>)
    ensures
        ({
            let l = lower(w);
            &&& (l == "buy"@ || l == "get"@ || l == "gain"@ || l == "receive"@) ==> spec_nl_op(w)
                == Some((OpIdx::Add, None::<nat>))
            &&& (l == "eat"@ || l == "lose"@ || l == "give"@ || l == "take"@ || l == "spend"@ || l
                == "drop"@) ==> spec_nl_op(w) == Some((OpIdx::Sub, None::<nat>))
            &&& l == "double"@ ==> spec_nl_op(w) == Some((OpIdx::Mul, Some(2nat)))
            &&& l == "triple"@ ==> spec_nl_op(w) == Some((OpIdx::Mul, Some(3nat)))
            &&& spec_nl_op(w) is Some ==> (l == "buy"@ || l == "get"@ || l == "gain"@ || l
                == "receive"@ || l == "eat"@ || l == "lose"@ || l == "give"@ || l == "take"@ || l
                == "spend"@ || l == "drop"@ || l == "double"@ || l == "triple"@)
        }),
{
    reveal_strlit("buy");
    reveal_strlit("get");
    reveal_strlit("gain");
    reveal_strlit("receive");
    reveal_strlit("eat");
    reveal_strlit("lose");
    reveal_strlit("give");
    reveal_strlit("take");
    reveal_strlit("spend");
    reveal_strlit("drop");
    reveal_strlit("double");
    reveal_strlit("triple");
    assert("buy"@ != "get"@) by { assert("buy"@[0] != "get"@[0]); }
    assert("buy"@ != "gain"@) by { assert("buy"@.len() != "gain"@.len()); }
    assert("buy"@ != "receive"@) by { assert("buy"@.len() != "receive"@.len()); }
    assert("buy"@ != "eat"@) by { assert("buy"@[0] != "eat"@[0]); }
    assert("buy"@ != "lose"@) by { assert("buy"@.len() != "lose"@.len()); }
    assert("buy"@ != "give"@) by { assert("buy"@.len() != "give"@.len()); }
    assert("buy"@ != "take"@) by { assert("buy"@.len() != "take"@.len()); }
    assert("buy"@ != "spend"@) by { assert("buy"@.len() != "spend"@.len()); }
    assert("buy"@ != "drop"@) by { assert("buy"@.len() != "drop"@.len()); }
    assert("buy"@ != "double"@) by { assert("buy"@.len() != "double"@.len()); }
    assert("buy"@ != "triple"@) by { assert("buy"@.len() != "triple"@.len()); }
    assert("get"@ != "gain"@) by { assert("get"@.len() != "gain"@.len()); }
    assert("get"@ != "receive"@) by { assert("get"@.len() != "receive"@.len()); }
    assert("get"@ != "eat"@) by { assert("get"@[0] != "eat"@[0]); }
    assert("get"@ != "lose"@) by { assert("get"@.len() != "lose"@.len()); }
    assert("get"@ != "give"@) by { assert("get"@.len() != "give"@.len()); }
    assert("get"@ != "take"@) by { assert("get"@.len() != "take"@.len()); }
    assert("get"@ != "spend"@) by { assert("get"@.len() != "spend"@.len()); }
    assert("get"@ != "drop"@) by { assert("get"@.len() != "drop"@.len()); }
    assert("get"@ != "double"@) by { assert("get"@.len() != "double"@.len()); }
    assert("get"@ != "triple"@) by { assert("get"@.len() != "triple"@.len()); }
    assert("gain"@ != "receive"@) by { assert("gain"@.len() != "receive"@.len()); }
    assert("gain"@ != "eat"@) by { assert("gain"@.len() != "eat"@.len()); }
    assert("gain"@ != "lose"@) by { assert("gain"@[0] != "lose"@[0]); }
    assert("gain"@ != "give"@) by { assert("gain"@[1] != "give"@[1]); }
    assert("gain"@ != "take"@) by { assert("gain"@[0] != "take"@[0]); }
    assert("gain"@ != "spend"@) by { assert("gain"@.len() != "spend"@.len()); }
    assert("gain"@ != "drop"@) by { assert("gain"@[0] != "drop"@[0]); }
    assert("gain"@ != "double"@) by { assert("gain"@.len() != "double"@.len()); }
    assert("gain"@ != "triple"@) by { assert("gain"@.len() != "triple"@.len()); }
    assert("receive"@ != "eat"@) by { assert("receive"@.len() != "eat"@.len()); }
    assert("receive"@ != "lose"@) by { assert("receive"@.len() != "lose"@.len()); }
    assert("receive"@ != "give"@) by { assert("receive"@.len() != "give"@.len()); }
    assert("receive"@ != "take"@) by { assert("receive"@.len() != "take"@.len()); }
    assert("receive"@ != "spend"@) by { assert("receive"@.len() != "spend"@.len()); }
    assert("receive"@ != "drop"@) by { assert("receive"@.len() != "drop"@.len()); }
    assert("receive"@ != "double"@) by { assert("receive"@.len() != "double"@.len()); }
    assert("receive"@ != "triple"@) by { assert("receive"@.len() != "triple"@.len()); }
    assert("eat"@ != "lose"@) by { assert("eat"@.len() != "lose"@.len()); }
    assert("eat"@ != "give"@) by { assert("eat"@.len() != "give"@.len()); }
    assert("eat"@ != "take"@) by { assert("eat"@.len() != "take"@.len()); }
    assert("eat"@ != "spend"@) by { assert("eat"@.len() != "spend"@.len()); }
    assert("eat"@ != "drop"@) by { assert("eat"@.len() != "drop"@.len()); }
    assert("eat"@ != "double"@) by { assert("eat"@.len() != "double"@.len()); }
    assert("eat"@ != "triple"@) by { assert("eat"@.len() != "triple"@.len()); }
    assert("lose"@ != "give"@) by { assert("lose"@[0] != "give"@[0]); }
    assert("lose"@ != "take"@) by { assert("lose"@[0] != "take"@[0]); }
    assert("lose"@ != "spend"@) by { assert("lose"@.len() != "spend"@.len()); }
    assert("lose"@ != "drop"@) by { assert("lose"@[0] != "drop"@[0]); }
    assert("lose"@ != "double"@) by { assert("lose"@.len() != "double"@.len()); }
    assert("lose"@ != "triple"@) by { assert("lose"@.len() != "triple"@.len()); }
    assert("give"@ != "take"@) by { assert("give"@[0] != "take"@[0]); }
    assert("give"@ != "spend"@) by { assert("give"@.len() != "spend"@.len()); }
    assert("give"@ != "drop"@) by { assert("give"@[0] != "drop"@[0]); }
    assert("give"@ != "double"@) by { assert("give"@.len() != "double"@.len()); }
    assert("give"@ != "triple"@) by { assert("give"@.len() != "triple"@.len()); }
    assert("take"@ != "spend"@) by { assert("take"@.len() != "spend"@.len()); }
    assert("take"@ != "drop"@) by { assert("take"@[0] != "drop"@[0]); }
    assert("take"@ != "double"@) by { assert("take"@.len() != "double"@.len()); }
    assert("take"@ != "triple"@) by { assert("take"@.len() != "triple"@.len()); }
    assert("spend"@ != "drop"@) by { assert("spend"@.len() != "drop"@.len()); }
    assert("spend"@ != "double"@) by { assert("spend"@.len() != "double"@.len()); }
    assert("spend"@ != "triple"@) by { assert("spend"@.len() != "triple"@.len()); }
    assert("drop"@ != "double"@) by { assert("drop"@.len() != "double"@.len()); }
    assert("drop"@ != "triple"@) by { assert("drop"@.len() != "triple"@.len()); }
    assert("double"@ != "triple"@) by { assert("double"@[0] != "triple"@[0]); }
}

/// Between two single digits, an adding word adds them and a subtracting word
/// subtracts the second from the first; before one digit, `double` and
/// `triple` multiply it by 2 and 3.
#[verifier::spinoff_prover]
pub proof fn law_operation_word_reads(a: Seq<char>, w: Seq<char>, b: Seq<char>)
    requires
        digit_of(a) is Some,
        digit_of(b) is Some,
    ensures
        ({
            let l = lower(w);
            let da = (digit_of(a)->0) as usize;
            let db = (digit_of(b)->0) as usize;
            let t = seq![TokenModel::Number(a), TokenModel::Word(w), TokenModel::Number(b)];
            let u = seq![TokenModel::Word(w), TokenModel::Number(a)];
            &&& (l == "buy"@ || l == "get"@ || l == "gain"@ || l == "receive"@) ==> spec_parse_seq(t)
                == Some((da, OpIdx::Add, db))
            &&& (l == "eat"@ || l == "lose"@ || l == "give"@ || l == "take"@ || l == "spend"@ || l
                == "drop"@) ==> spec_parse_seq(t) == Some((da, OpIdx::Sub, db))
            &&& l == "double"@ ==> spec_parse_seq(u) == Some((da, OpIdx::Mul, 2usize))
            &&& l == "triple"@ ==> spec_parse_seq(u) == Some((da, OpIdx::Mul, 3usize))
        }),
{
    law_operation_words(w);
    let t = seq![TokenModel::Number(a), TokenModel::Word(w), TokenModel::Number(b)];
    let u = seq![TokenModel::Word(w), TokenModel::Number(a)];
    assert(t.drop_last() =~= seq![TokenModel::Number(a), TokenModel::Word(w)]);
    assert(t.drop_last().drop_last() =~= seq![TokenModel::Number(a)]);
    assert(t.drop_last().drop_last().drop_last() =~= Seq::<TokenModel>::empty());
    assert(u.drop_last() =~= seq![TokenModel::Word(w)]);
    assert(u.drop_last().drop_last() =~= Seq::<TokenModel>::empty());
    let t1 = seq![TokenModel::Number(a)];
    let t2 = seq![TokenModel::Number(a), TokenModel::Word(w)];
    let u1 = seq![TokenModel::Word(w)];
    assert(crate::transformer::operand_texts(t1.drop_last()) =~= Seq::<Seq<char>>::empty());
    assert(crate::transformer::operand_texts(t1) =~= seq![a]);
    assert(crate::transformer::operand_texts(t2) =~= seq![a]);
    assert(crate::transformer::operand_texts(t) =~= seq![a, b]);
    assert(crate::transformer::operand_texts(u1.drop_last()) =~= Seq::<Seq<char>>::empty());
    assert(crate::transformer::operand_texts(u1) =~= Seq::<Seq<char>>::empty());
    assert(crate::transformer::operand_texts(u) =~= seq![a]);
    assert(!crate::transformer::has_div(t));
    assert(!crate::transformer::has_div(u));
    assert(first_op(t1.drop_last()) is None);
    assert(first_op(t1) is None);
    assert(first_op(t2) == spec_nl_op(w));
    assert(first_op(t) == spec_nl_op(w));
    assert(first_op(u1.drop_last()) is None);
    assert(first_op(u1) == spec_nl_op(w));
    assert(first_op(u) == spec_nl_op(w));
}

/// A word that asks for an average.
pub open spec fn is_average_word(t: TokenModel) -> bool {
    t matches TokenModel::Word(w) && (lower(w) == "average"@ || lower(w) == "avg"@ || lower(w)
        == "mean"@)
}

/// A word that asks for a total.
pub open spec fn is_total_word(t: TokenModel) -> bool {
    t matches TokenModel::Word(w) && (lower(w) == "total"@ || lower(w) == "altogether"@ || lower(w)
        == "price"@ || lower(w) == "cost"@ || lower(w) == "sum"@ || lower(w) == "add"@)
}

/// A percent amount or a percent sign.
pub open spec fn is_percent_mark(t: TokenModel) -> bool {
    t is PercentValue || t is Percent
}

#[verifier::spinoff_prover]
proof fn lemma_cue_words(w: Seq<char>, o: OperandsModel)
    ensures
        word_cue(w, o).has_avg == (o.has_avg || is_average_word(TokenModel::Word(w))),
        word_cue(w, o).has_total == (o.has_total || is_total_word(TokenModel::Word(w))),
        word_cue(w, o).has_percent == o.has_percent,
        spec_is_count_unit(w) ==> !is_average_word(TokenModel::Word(w)) && !is_total_word(
            TokenModel::Word(w),
        ),
{
    reveal_strlit("of");
    reveal_strlit("by");
    reveal_strlit("average");
    reveal_strlit("avg");
    reveal_strlit("mean");
    reveal_strlit("total");
    reveal_strlit("altogether");
    reveal_strlit("price");
    reveal_strlit("cost");
    reveal_strlit("sum");
    reveal_strlit("add");
    reveal_strlit("plus");
    reveal_strlit("and");
    reveal_strlit("item");
    reveal_strlit("items");
    reveal_strlit("copy");
    reveal_strlit("copies");
    reveal_strlit("piece");
    reveal_strlit("pieces");
    reveal_strlit("unit");
    reveal_strlit("units");
    reveal_strlit("pcs");
    assert("of"@ != "by"@) by { assert("of"@[0] != "by"@[0]); }
    assert("of"@ != "average"@) by { assert("of"@.len() != "average"@.len()); }
    assert("of"@ != "avg"@) by { assert("of"@.len() != "avg"@.len()); }
    assert("of"@ != "mean"@) by { assert("of"@.len() != "mean"@.len()); }
    assert("of"@ != "total"@) by { assert("of"@.len() != "total"@.len()); }
    assert("of"@ != "altogether"@) by { assert("of"@.len() != "altogether"@.len()); }
    assert("of"@ != "price"@) by { assert("of"@.len() != "price"@.len()); }
    assert("of"@ != "cost"@) by { assert("of"@.len() != "cost"@.len()); }
    assert("of"@ != "sum"@) by { assert("of"@.len() != "sum"@.len()); }
    assert("of"@ != "add"@) by { assert("of"@.len() != "add"@.len()); }
    assert("of"@ != "plus"@) by { assert("of"@.len() != "plus"@.len()); }
    assert("of"@ != "and"@) by { assert("of"@.len() != "and"@.len()); }
    assert("by"@ != "average"@) by { assert("by"@.len() != "average"@.len()); }
    assert("by"@ != "avg"@) by { assert("by"@.len() != "avg"@.len()); }
    assert("by"@ != "mean"@) by { assert("by"@.len() != "mean"@.len()); }
    assert("by"@ != "total"@) by { assert("by"@.len() != "total"@.len()); }
    assert("by"@ != "altogether"@) by { assert("by"@.len() != "altogether"@.len()); }
    assert("by"@ != "price"@) by { assert("by"@.len() != "price"@.len()); }
    assert("by"@ != "cost"@) by { assert("by"@.len() != "cost"@.len()); }
    assert("by"@ != "sum"@) by { assert("by"@.len() != "sum"@.len()); }
    assert("by"@ != "add"@) by { assert("by"@.len() != "add"@.len()); }
    assert("by"@ != "plus"@) by { assert("by"@.len() != "plus"@.len()); }
    assert("by"@ != "and"@) by { assert("by"@.len() != "and"@.len()); }
    assert("average"@ != "avg"@) by { assert("average"@.len() != "avg"@.len()); }
    assert("average"@ != "mean"@) by { assert("average"@.len() != "mean"@.len()); }
    assert("average"@ != "total"@) by { assert("average"@.len() != "total"@.len()); }
    assert("average"@ != "altogether"@) by { assert("average"@.len() != "altogether"@.len()); }
    assert("average"@ != "price"@) by { assert("average"@.len() != "price"@.len()); }
    assert("average"@ != "cost"@) by { assert("average"@.len() != "cost"@.len()); }
    assert("average"@ != "sum"@) by { assert("average"@.len() != "sum"@.len()); }
    assert("average"@ != "add"@) by { assert("average"@.len() != "add"@.len()); }
    assert("average"@ != "plus"@) by { assert("average"@.len() != "plus"@.len()); }
    assert("average"@ != "and"@) by { assert("average"@.len() != "and"@.len()); }
    assert("avg"@ != "mean"@) by { assert("avg"@.len() != "mean"@.len()); }
    assert("avg"@ != "total"@) by { assert("avg"@.len() != "total"@.len()); }
    assert("avg"@ != "altogether"@) by { assert("avg"@.len() != "altogether"@.len()); }
    assert("avg"@ != "price"@) by { assert("avg"@.len() != "price"@.len()); }
    assert("avg"@ != "cost"@) by { assert("avg"@.len() != "cost"@.len()); }
    assert("avg"@ != "sum"@) by { assert("avg"@[0] != "sum"@[0]); }
    assert("avg"@ != "add"@) by { assert("avg"@[1] != "add"@[1]); }
    assert("avg"@ != "plus"@) by { assert("avg"@.len() != "plus"@.len()); }
    assert("avg"@ != "and"@) by { assert("avg"@[1] != "and"@[1]); }
    assert("mean"@ != "total"@) by { assert("mean"@.len() != "total"@.len()); }
    assert("mean"@ != "altogether"@) by { assert("mean"@.len() != "altogether"@.len()); }
    assert("mean"@ != "price"@) by { assert("mean"@.len() != "price"@.len()); }
    assert("mean"@ != "cost"@) by { assert("mean"@[0] != "cost"@[0]); }
    assert("mean"@ != "sum"@) by { assert("mean"@.len() != "sum"@.len()); }
    assert("mean"@ != "add"@) by { assert("mean"@.len() != "add"@.len()); }
    assert("mean"@ != "plus"@) by { assert("mean"@[0] != "plus"@[0]); }
    assert("mean"@ != "and"@) by { assert("mean"@.len() != "and"@.len()); }
    assert("total"@ != "altogether"@) by { assert("total"@.len() != "altogether"@.len()); }
    assert("total"@ != "price"@) by { assert("total"@[0] != "price"@[0]); }
    assert("total"@ != "cost"@) by { assert("total"@.len() != "cost"@.len()); }
    assert("total"@ != "sum"@) by { assert("total"@.len() != "sum"@.len()); }
    assert("total"@ != "add"@) by { assert("total"@.len() != "add"@.len()); }
    assert("total"@ != "plus"@) by { assert("total"@.len() != "plus"@.len()); }
    assert("total"@ != "and"@) by { assert("total"@.len() != "and"@.len()); }
    assert("altogether"@ != "price"@) by { assert("altogether"@.len() != "price"@.len()); }
    assert("altogether"@ != "cost"@) by { assert("altogether"@.len() != "cost"@.len()); }
    assert("altogether"@ != "sum"@) by { assert("altogether"@.len() != "sum"@.len()); }
    assert("altogether"@ != "add"@) by { assert("altogether"@.len() != "add"@.len()); }
    assert("altogether"@ != "plus"@) by { assert("altogether"@.len() != "plus"@.len()); }
    assert("altogether"@ != "and"@) by { assert("altogether"@.len() != "and"@.len()); }
    assert("price"@ != "cost"@) by { assert("price"@.len() != "cost"@.len()); }
    assert("price"@ != "sum"@) by { assert("price"@.len() != "sum"@.len()); }
    assert("price"@ != "add"@) by { assert("price"@.len() != "add"@.len()); }
    assert("price"@ != "plus"@) by { assert("price"@.len() != "plus"@.len()); }
    assert("price"@ != "and"@) by { assert("price"@.len() != "and"@.len()); }
    assert("cost"@ != "sum"@) by { assert("cost"@.len() != "sum"@.len()); }
    assert("cost"@ != "add"@) by { assert("cost"@.len() != "add"@.len()); }
    assert("cost"@ != "plus"@) by { assert("cost"@[0] != "plus"@[0]); }
    assert("cost"@ != "and"@) by { assert("cost"@.len() != "and"@.len()); }
    assert("sum"@ != "add"@) by { assert("sum"@[0] != "add"@[0]); }
    assert("sum"@ != "plus"@) by { assert("sum"@.len() != "plus"@.len()); }
    assert("sum"@ != "and"@) by { assert("sum"@[0] != "and"@[0]); }
    assert("add"@ != "plus"@) by { assert("add"@.len() != "plus"@.len()); }
    assert("add"@ != "and"@) by { assert("add"@[1] != "and"@[1]); }
    assert("plus"@ != "and"@) by { assert("plus"@.len() != "and"@.len()); }
    assert("item"@ != "average"@) by { assert("item"@.len() != "average"@.len()); }
    assert("item"@ != "avg"@) by { assert("item"@.len() != "avg"@.len()); }
    assert("item"@ != "mean"@) by { assert("item"@[0] != "mean"@[0]); }
    assert("item"@ != "total"@) by { assert("item"@.len() != "total"@.len()); }
    assert("item"@ != "altogether"@) by { assert("item"@.len() != "altogether"@.len()); }
    assert("item"@ != "price"@) by { assert("item"@.len() != "price"@.len()); }
    assert("item"@ != "cost"@) by { assert("item"@[0] != "cost"@[0]); }
    assert("item"@ != "sum"@) by { assert("item"@.len() != "sum"@.len()); }
    assert("item"@ != "add"@) by { assert("item"@.len() != "add"@.len()); }
    assert("items"@ != "average"@) by { assert("items"@.len() != "average"@.len()); }
    assert("items"@ != "avg"@) by { assert("items"@.len() != "avg"@.len()); }
    assert("items"@ != "mean"@) by { assert("items"@.len() != "mean"@.len()); }
    assert("items"@ != "total"@) by { assert("items"@[0] != "total"@[0]); }
    assert("items"@ != "altogether"@) by { assert("items"@.len() != "altogether"@.len()); }
    assert("items"@ != "price"@) by { assert("items"@[0] != "price"@[0]); }
    assert("items"@ != "cost"@) by { assert("items"@.len() != "cost"@.len()); }
    assert("items"@ != "sum"@) by { assert("items"@.len() != "sum"@.len()); }
    assert("items"@ != "add"@) by { assert("items"@.len() != "add"@.len()); }
    assert("copy"@ != "average"@) by { assert("copy"@.len() != "average"@.len()); }
    assert("copy"@ != "avg"@) by { assert("copy"@.len() != "avg"@.len()); }
    assert("copy"@ != "mean"@) by { assert("copy"@[0] != "mean"@[0]); }
    assert("copy"@ != "total"@) by { assert("copy"@.len() != "total"@.len()); }
    assert("copy"@ != "altogether"@) by { assert("copy"@.len() != "altogether"@.len()); }
    assert("copy"@ != "price"@) by { assert("copy"@.len() != "price"@.len()); }
    assert("copy"@ != "cost"@) by { assert("copy"@[2] != "cost"@[2]); }
    assert("copy"@ != "sum"@) by { assert("copy"@.len() != "sum"@.len()); }
    assert("copy"@ != "add"@) by { assert("copy"@.len() != "add"@.len()); }
    assert("copies"@ != "average"@) by { assert("copies"@.len() != "average"@.len()); }
    assert("copies"@ != "avg"@) by { assert("copies"@.len() != "avg"@.len()); }
    assert("copies"@ != "mean"@) by { assert("copies"@.len() != "mean"@.len()); }
    assert("copies"@ != "total"@) by { assert("copies"@.len() != "total"@.len()); }
    assert("copies"@ != "altogether"@) by { assert("copies"@.len() != "altogether"@.len()); }
    assert("copies"@ != "price"@) by { assert("copies"@.len() != "price"@.len()); }
    assert("copies"@ != "cost"@) by { assert("copies"@.len() != "cost"@.len()); }
    assert("copies"@ != "sum"@) by { assert("copies"@.len() != "sum"@.len()); }
    assert("copies"@ != "add"@) by { assert("copies"@.len() != "add"@.len()); }
    assert("piece"@ != "average"@) by { assert("piece"@.len() != "average"@.len()); }
    assert("piece"@ != "avg"@) by { assert("piece"@.len() != "avg"@.len()); }
    assert("piece"@ != "mean"@) by { assert("piece"@.len() != "mean"@.len()); }
    assert("piece"@ != "total"@) by { assert("piece"@[0] != "total"@[0]); }
    assert("piece"@ != "altogether"@) by { assert("piece"@.len() != "altogether"@.len()); }
    assert("piece"@ != "price"@) by { assert("piece"@[1] != "price"@[1]); }
    assert("piece"@ != "cost"@) by { assert("piece"@.len() != "cost"@.len()); }
    assert("piece"@ != "sum"@) by { assert("piece"@.len() != "sum"@.len()); }
    assert("piece"@ != "add"@) by { assert("piece"@.len() != "add"@.len()); }
    assert("pieces"@ != "average"@) by { assert("pieces"@.len() != "average"@.len()); }
    assert("pieces"@ != "avg"@) by { assert("pieces"@.len() != "avg"@.len()); }
    assert("pieces"@ != "mean"@) by { assert("pieces"@.len() != "mean"@.len()); }
    assert("pieces"@ != "total"@) by { assert("pieces"@.len() != "total"@.len()); }
    assert("pieces"@ != "altogether"@) by { assert("pieces"@.len() != "altogether"@.len()); }
    assert("pieces"@ != "price"@) by { assert("pieces"@.len() != "price"@.len()); }
    assert("pieces"@ != "cost"@) by { assert("pieces"@.len() != "cost"@.len()); }
    assert("pieces"@ != "sum"@) by { assert("pieces"@.len() != "sum"@.len()); }
    assert("pieces"@ != "add"@) by { assert("pieces"@.len() != "add"@.len()); }
    assert("unit"@ != "average"@) by { assert("unit"@.len() != "average"@.len()); }
    assert("unit"@ != "avg"@) by { assert("unit"@.len() != "avg"@.len()); }
    assert("unit"@ != "mean"@) by { assert("unit"@[0] != "mean"@[0]); }
    assert("unit"@ != "total"@) by { assert("unit"@.len() != "total"@.len()); }
    assert("unit"@ != "altogether"@) by { assert("unit"@.len() != "altogether"@.len()); }
    assert("unit"@ != "price"@) by { assert("unit"@.len() != "price"@.len()); }
    assert("unit"@ != "cost"@) by { assert("unit"@[0] != "cost"@[0]); }
    assert("unit"@ != "sum"@) by { assert("unit"@.len() != "sum"@.len()); }
    assert("unit"@ != "add"@) by { assert("unit"@.len() != "add"@.len()); }
    assert("units"@ != "average"@) by { assert("units"@.len() != "average"@.len()); }
    assert("units"@ != "avg"@) by { assert("units"@.len() != "avg"@.len()); }
    assert("units"@ != "mean"@) by { assert("units"@.len() != "mean"@.len()); }
    assert("units"@ != "total"@) by { assert("units"@[0] != "total"@[0]); }
    assert("units"@ != "altogether"@) by { assert("units"@.len() != "altogether"@.len()); }
    assert("units"@ != "price"@) by { assert("units"@[0] != "price"@[0]); }
    assert("units"@ != "cost"@) by { assert("units"@.len() != "cost"@.len()); }
    assert("units"@ != "sum"@) by { assert("units"@.len() != "sum"@.len()); }
    assert("units"@ != "add"@) by { assert("units"@.len() != "add"@.len()); }
    assert("pcs"@ != "average"@) by { assert("pcs"@.len() != "average"@.len()); }
    assert("pcs"@ != "avg"@) by { assert("pcs"@[0] != "avg"@[0]); }
    assert("pcs"@ != "mean"@) by { assert("pcs"@.len() != "mean"@.len()); }
    assert("pcs"@ != "total"@) by { assert("pcs"@.len() != "total"@.len()); }
    assert("pcs"@ != "altogether"@) by { assert("pcs"@.len() != "altogether"@.len()); }
    assert("pcs"@ != "price"@) by { assert("pcs"@.len() != "price"@.len()); }
    assert("pcs"@ != "cost"@) by { assert("pcs"@.len() != "cost"@.len()); }
    assert("pcs"@ != "sum"@) by { assert("pcs"@[0] != "sum"@[0]); }
    assert("pcs"@ != "add"@) by { assert("pcs"@[0] != "add"@[0]); }
}

/// Some word from position `i` on asks for an average.
pub open spec fn average_word_from(t: Seq<TokenModel>, i: int) -> bool {
    exists|j: int| i <= j < t.len() && is_average_word(#[trigger] t[j])
}

/// Some word from position `i` on asks for a total.
pub open spec fn total_word_from(t: Seq<TokenModel>, i: int) -> bool {
    exists|j: int| i <= j < t.len() && is_total_word(#[trigger] t[j])
}

/// Some percent amount or sign occurs from position `i` on.
pub open spec fn percent_mark_from(t: Seq<TokenModel>, i: int) -> bool {
    exists|j: int| i <= j < t.len() && is_percent_mark(#[trigger] t[j])
}

/// What the walk from position `i` does to the averaging, totalling and
/// percent cues.
pub open spec fn walk_flags(t: Seq<TokenModel>, i: int, o: OperandsModel) -> bool {
    let w = walk(t, i, o);
    &&& w.has_avg == (o.has_avg || average_word_from(t, i))
    &&& w.has_total == (o.has_total || total_word_from(t, i))
    &&& w.has_percent == (o.has_percent || percent_mark_from(t, i))
}

proof fn lemma_cues_from_step(t: Seq<TokenModel>, i: int)
    requires
        0 <= i < t.len(),
    ensures
        average_word_from(t, i) == (is_average_word(t[i]) || average_word_from(t, i + 1)),
        total_word_from(t, i) == (is_total_word(t[i]) || total_word_from(t, i + 1)),
        percent_mark_from(t, i) == (is_percent_mark(t[i]) || percent_mark_from(t, i + 1)),
{
    if average_word_from(t, i) && !is_average_word(t[i]) {
        let j = choose|j: int| i <= j < t.len() && is_average_word(#[trigger] t[j]);
        assert(j != i);
    }
    if total_word_from(t, i) && !is_total_word(t[i]) {
        let j = choose|j: int| i <= j < t.len() && is_total_word(#[trigger] t[j]);
        assert(j != i);
    }
    if percent_mark_from(t, i) && !is_percent_mark(t[i]) {
        let j = choose|j: int| i <= j < t.len() && is_percent_mark(#[trigger] t[j]);
        assert(j != i);
    }
}

#[verifier::spinoff_prover]
proof fn lemma_walk_flags_number(t: Seq<TokenModel>, i: int, o: OperandsModel, n: Seq<char>)
    requires
        0 <= i < t.len(),
        t[i] == TokenModel::Number(n),
    ensures
        walk_flags(t, i, o),
    decreases t.len() - i, 0int,
{
    lemma_cues_from_step(t, i);
    if i + 1 < t.len() {
        lemma_cues_from_step(t, i + 1);
        if let TokenModel::Word(w) = t[i + 1] {
            lemma_cue_words(w, o);
        }
    }
    if i + 1 < t.len() && t[i + 1] is Times {
        if i + 2 < t.len() && t[i + 2] is Number {
            lemma_walk_flags(t, i + 2, push_op(push_number(o, n), ArithOp::Mul));
        } else {
            lemma_walk_flags(t, i + 2, push_quantity(o, n));
        }
    } else if i + 1 < t.len() && (t[i + 1] matches TokenModel::Word(w) && spec_is_count_unit(w)) {
        lemma_walk_flags(t, i + 2, push_quantity(o, n));
    } else {
        lemma_walk_flags(t, i + 1, push_number(o, n));
    }
}

#[verifier::spinoff_prover]
proof fn lemma_walk_flags(t: Seq<TokenModel>, i: int, o: OperandsModel)
    requires
        0 <= i <= t.len(),
    ensures
        walk_flags(t, i, o),
    decreases t.len() - i, 1int,
{
    if i < t.len() {
        lemma_cues_from_step(t, i);
        match t[i] {
            TokenModel::Number(n) => lemma_walk_flags_number(t, i, o, n),
            TokenModel::Quantity(q) => lemma_walk_flags(t, i + 1, push_quantity(o, q)),
            TokenModel::Currency { value, cur, side } => {
                let o1 = OperandsModel { prices: o.prices.push((value, cur)), ..o };
                let o2 = if o.currency is None {
                    OperandsModel { currency: Some(cur), side: side, ..o1 }
                } else {
                    o1
                };
                lemma_walk_flags(t, i + 1, o2);
            },
            TokenModel::PercentValue(v) => lemma_walk_flags(
                t,
                i + 1,
                OperandsModel { percents: o.percents.push(v), has_percent: true, ..o },
            ),
            TokenModel::Percent => lemma_walk_flags(t, i + 1, OperandsModel { has_percent: true, ..o }),
            TokenModel::Op(op) => lemma_walk_flags(t, i + 1, push_op(o, op)),
            TokenModel::Word(w) => {
                lemma_cue_words(w, o);
                lemma_walk_flags(t, i + 1, word_cue(w, o));
            },
            TokenModel::Times => lemma_walk_flags(t, i + 1, push_op(o, ArithOp::Mul)),
        }
    }
}

/// Extraction notices an average exactly when some word asks for one
/// (`average`, `avg`, `mean`), a total exactly when some word asks for one
/// (`total`, `altogether`, `price`, `cost`, `sum`, `add`), and a percent exactly
/// when a percent amount or sign occurs; all compared case-insensitively.
pub proof fn law_cue_words(t: Seq<TokenModel>)
    ensures
        spec_extract(t).has_avg <==> exists|i: int| 0 <= i < t.len() && is_average_word(#[trigger] t[i]),
        spec_extract(t).has_total <==> exists|i: int| 0 <= i < t.len() && is_total_word(#[trigger] t[i]),
        spec_extract(t).has_percent <==> exists|i: int| 0 <= i < t.len() && is_percent_mark(#[trigger] t[i]),
{
    lemma_walk_flags(t, 0, empty_operands());
}

/// A sentence with a word asking for an average or a total, or with a percent,
/// is always taken as math, whatever other words it holds.
pub proof fn law_cue_words_pass_the_gate(t: Seq<TokenModel>)
    ensures
        (exists|i: int| 0 <= i < t.len() && (is_average_word(#[trigger] t[i]) || is_total_word(t[i])
            || is_percent_mark(t[i]))) ==> spec_is_plausible_math(t, spec_extract(t)),
        spec_extract(t).has_avg || spec_extract(t).has_total || spec_extract(t).has_percent
            ==> spec_is_plausible_math(t, spec_extract(t)),
{
    law_cue_words(t);
}

/// With an operator, and neither a percent of a number nor an average of the
/// numbers to compute, the computation applies the first operator to the plain
/// numbers, or to the price amounts when there are no plain numbers, in the
/// operands' currency.
pub proof fn law_operator_applies_to_values(o: OperandsModel)
    requires
        o.ops.len() > 0,
        !(o.percents.len() > 0 && o.has_of && o.numbers.len() > 0),
        !(o.has_avg && o.numbers.len() > 0),
    ensures
        spec_resolve(o) == (ComputationModel::Arith {
            op: o.ops[0],
            values: if o.numbers.len() > 0 {
                o.numbers
            } else {
                Seq::new(o.prices.len(), |i: int| o.prices[i].0)
            },
            currency: o.currency,
            side: o.side,
        }),
{
    assert(price_values(o.prices) =~= Seq::new(o.prices.len(), |i: int| o.prices[i].0));
}

/// An operator between two prices applies to the two amounts, in the currency
/// and on the side of the first price, and the answer is labelled by the
/// operator.
#[verifier::spinoff_prover]
pub proof fn law_operator_between_prices(
    a: Seq<char>,
    ca: Currency,
    sa: CurrencySide,
    op: ArithOp,
    b: Seq<char>,
    cb: Currency,
    sb: CurrencySide,
)
    ensures
        spec_plan_tokens(
            seq![
                TokenModel::Currency { value: a, cur: ca, side: sa },
                TokenModel::Op(op),
                TokenModel::Currency { value: b, cur: cb, side: sb },
            ],
        ) == Some(
            (
                ComputationModel::Arith { op, values: seq![a, b], currency: Some(ca), side: sa },
                (spec_label_of(op), Some(ca), sa),
            ),
        ),
{
    let t = seq![
        TokenModel::Currency { value: a, cur: ca, side: sa },
        TokenModel::Op(op),
        TokenModel::Currency { value: b, cur: cb, side: sb },
    ];
    law_extract_orders_amounts(t);
    let o = spec_extract(t);
    assert(o.ops =~= seq![op]) by {
        let e = empty_operands();
        let o1 = OperandsModel { prices: e.prices.push((a, ca)), currency: Some(ca), side: sa, ..e };
        let o2 = push_op(o1, op);
        let o3 = OperandsModel { prices: o2.prices.push((b, cb)), ..o2 };
        assert(walk(t, 0, e) == walk(t, 1, o1));
        assert(walk(t, 1, o1) == walk(t, 2, o2));
        assert(walk(t, 2, o2) == walk(t, 3, o3));
    }
    assert(numbers_from(t, 3) =~= Seq::<Seq<char>>::empty());
    assert(prices_from(t, 3) =~= Seq::<(Seq<char>, Currency)>::empty());
    assert(percents_from(t, 3) =~= Seq::<Seq<char>>::empty());
    assert(numbers_from(t, 2) =~= Seq::<Seq<char>>::empty());
    assert(numbers_from(t, 1) =~= Seq::<Seq<char>>::empty());
    assert(numbers_from(t, 0) =~= Seq::<Seq<char>>::empty());
    assert(prices_from(t, 2) =~= seq![(b, cb)]);
    assert(prices_from(t, 1) =~= seq![(b, cb)]);
    assert(prices_from(t, 0) =~= seq![(a, ca), (b, cb)]);
    assert(percents_from(t, 2) =~= Seq::<Seq<char>>::empty());
    assert(percents_from(t, 1) =~= Seq::<Seq<char>>::empty());
    assert(percents_from(t, 0) =~= Seq::<Seq<char>>::empty());
    assert(first_currency_from(t, 0) == Some((ca, sa)));
    assert(price_values(o.prices) =~= seq![a, b]);
}

/// An answer written with a currency is written in the currency, and on the
/// side, of the first price in the input; a total cost always has one.
#[verifier::spinoff_prover]
pub proof fn law_answer_currency_is_first_price(t: Seq<TokenModel>)
    ensures
        spec_plan_tokens(t) matches Some((c, (label, cur, side))) ==> {
            &&& cur matches Some(k) ==> first_currency_from(t, 0) == Some((k, side))
            &&& c is TotalCost ==> label == "total"@ && first_currency_from(t, 0) == Some(
                (cur->0, side),
            ) && cur is Some
        },
{
    law_extract_orders_amounts(t);
    law_currency_is_first_price(t);
    lemma_first_currency_is_first_price(t, 0);
}

/// The words counted as units after a number, compared case-insensitively.
pub proof fn law_count_units(w: Seq<char>)
    ensures
        ({
            let l = lower(w);
            spec_is_count_unit(w) <==> (l == "item"@ || l == "items"@ || l == "copy"@ || l
                == "copies"@ || l == "piece"@ || l == "pieces"@ || l == "unit"@ || l == "units"@
                || l == "pcs"@)
        }),
{
}

/// The words the plausibility gate does not count as noise, compared
/// case-insensitively: the extractor's cue words.
pub proof fn law_math_keywords(w: Seq<char>)
    ensures
        ({
            let l = lower(w);
            spec_is_math_keyword(w) <==> (l == "of"@ || l == "by"@ || l == "and"@ || l == "plus"@
                || l == "average"@ || l == "avg"@ || l == "mean"@ || l == "total"@ || l
                == "altogether"@ || l == "price"@ || l == "cost"@ || l == "sum"@ || l == "add"@)
        }),
{
}

/// Each kind of computation is answered under its label: a total cost as
/// `total`, the four operations as `sum`, `difference`, `product` and
/// `quotient`, an average as `average`, a percent or a lone value as `result`;
/// there is no answer exactly for an unknown intent or an empty list of values.
pub proof fn law_answer_labels(c: ComputationModel)
    ensures
        spec_answer_form(c) is None <==> (c is Unknown || (c matches ComputationModel::Arith {
            values,
            ..
        } && values.len() == 0) || (c matches ComputationModel::Average { values }
            && values.len() == 0)),
        spec_answer_form(c) matches Some((label, _, _)) ==> label == match c {
            ComputationModel::TotalCost { .. } => "total"@,
            ComputationModel::Arith { op: ArithOp::Add, .. } => "sum"@,
            ComputationModel::Arith { op: ArithOp::Sub, .. } => "difference"@,
            ComputationModel::Arith { op: ArithOp::Mul, .. } => "product"@,
            ComputationModel::Arith { op: ArithOp::Div, .. } => "quotient"@,
            ComputationModel::Average { .. } => "average"@,
            _ => "result"@,
        },
        spec_answer_form(c) matches Some((_, cur, side)) ==> match c {
            ComputationModel::TotalCost { currency, side: s, .. } => cur == Some(currency) && side
                == s,
            ComputationModel::Arith { currency, side: s, .. } => cur == currency && side == s,
            ComputationModel::Single { currency, side: s, .. } => cur == currency && side == s,
            _ => cur is None && side == CurrencySide::Suffix,
        },
{
}

/// Operator words and symbols are read as their operations, whatever their
/// case: `+`/`plus` add, `-`/`minus` subtract, `*`/`×` multiply, `/`/`÷`
/// divide, `times`/`time` are the times word, `%`/`percent` the percent sign;
/// and a decimal literal is a number.
#[verifier::spinoff_prover]
pub proof fn law_operator_words_lex(w: Seq<char>)
    ensures
        ({
            let l = lower(w);
            &&& (l == "+"@ || l == "plus"@) ==> classify(w) == TokenModel::Op(ArithOp::Add)
            &&& (l == "-"@ || l == "minus"@) ==> classify(w) == TokenModel::Op(ArithOp::Sub)
            &&& (l == "*"@ || l == "×"@) ==> classify(w) == TokenModel::Op(ArithOp::Mul)
            &&& (l == "/"@ || l == "÷"@) ==> classify(w) == TokenModel::Op(ArithOp::Div)
            &&& (l == "times"@ || l == "time"@) ==> classify(w) == TokenModel::Times
            &&& (l == "%"@ || l == "percent"@) ==> classify(w) == TokenModel::Percent
            &&& is_decimal(w) ==> classify(w) == TokenModel::Number(w)
        }),
{
    reveal_strlit("+");
    reveal_strlit("plus");
    reveal_strlit("-");
    reveal_strlit("minus");
    reveal_strlit("*");
    reveal_strlit("×");
    reveal_strlit("/");
    reveal_strlit("÷");
    reveal_strlit("times");
    reveal_strlit("time");
    reveal_strlit("%");
    reveal_strlit("percent");
    assert("+"@ != "plus"@) by { assert("+"@.len() != "plus"@.len()); }
    assert("+"@ != "-"@) by { assert("+"@[0] != "-"@[0]); }
    assert("+"@ != "minus"@) by { assert("+"@.len() != "minus"@.len()); }
    assert("+"@ != "*"@) by { assert("+"@[0] != "*"@[0]); }
    assert("+"@ != "×"@) by { assert("+"@[0] != "×"@[0]); }
    assert("+"@ != "/"@) by { assert("+"@[0] != "/"@[0]); }
    assert("+"@ != "÷"@) by { assert("+"@[0] != "÷"@[0]); }
    assert("+"@ != "times"@) by { assert("+"@.len() != "times"@.len()); }
    assert("+"@ != "time"@) by { assert("+"@.len() != "time"@.len()); }
    assert("+"@ != "%"@) by { assert("+"@[0] != "%"@[0]); }
    assert("+"@ != "percent"@) by { assert("+"@.len() != "percent"@.len()); }
    assert("plus"@ != "-"@) by { assert("plus"@.len() != "-"@.len()); }
    assert("plus"@ != "minus"@) by { assert("plus"@.len() != "minus"@.len()); }
    assert("plus"@ != "*"@) by { assert("plus"@.len() != "*"@.len()); }
    assert("plus"@ != "×"@) by { assert("plus"@.len() != "×"@.len()); }
    assert("plus"@ != "/"@) by { assert("plus"@.len() != "/"@.len()); }
    assert("plus"@ != "÷"@) by { assert("plus"@.len() != "÷"@.len()); }
    assert("plus"@ != "times"@) by { assert("plus"@.len() != "times"@.len()); }
    assert("plus"@ != "time"@) by { assert("plus"@[0] != "time"@[0]); }
    assert("plus"@ != "%"@) by { assert("plus"@.len() != "%"@.len()); }
    assert("plus"@ != "percent"@) by { assert("plus"@.len() != "percent"@.len()); }
    assert("-"@ != "minus"@) by { assert("-"@.len() != "minus"@.len()); }
    assert("-"@ != "*"@) by { assert("-"@[0] != "*"@[0]); }
    assert("-"@ != "×"@) by { assert("-"@[0] != "×"@[0]); }
    assert("-"@ != "/"@) by { assert("-"@[0] != "/"@[0]); }
    assert("-"@ != "÷"@) by { assert("-"@[0] != "÷"@[0]); }
    assert("-"@ != "times"@) by { assert("-"@.len() != "times"@.len()); }
    assert("-"@ != "time"@) by { assert("-"@.len() != "time"@.len()); }
    assert("-"@ != "%"@) by { assert("-"@[0] != "%"@[0]); }
    assert("-"@ != "percent"@) by { assert("-"@.len() != "percent"@.len()); }
    assert("minus"@ != "*"@) by { assert("minus"@.len() != "*"@.len()); }
    assert("minus"@ != "×"@) by { assert("minus"@.len() != "×"@.len()); }
    assert("minus"@ != "/"@) by { assert("minus"@.len() != "/"@.len()); }
    assert("minus"@ != "÷"@) by { assert("minus"@.len() != "÷"@.len()); }
    assert("minus"@ != "times"@) by { assert("minus"@[0] != "times"@[0]); }
    assert("minus"@ != "time"@) by { assert("minus"@.len() != "time"@.len()); }
    assert("minus"@ != "%"@) by { assert("minus"@.len() != "%"@.len()); }
    assert("minus"@ != "percent"@) by { assert("minus"@.len() != "percent"@.len()); }
    assert("*"@ != "×"@) by { assert("*"@[0] != "×"@[0]); }
    assert("*"@ != "/"@) by { assert("*"@[0] != "/"@[0]); }
    assert("*"@ != "÷"@) by { assert("*"@[0] != "÷"@[0]); }
    assert("*"@ != "times"@) by { assert("*"@.len() != "times"@.len()); }
    assert("*"@ != "time"@) by { assert("*"@.len() != "time"@.len()); }
    assert("*"@ != "%"@) by { assert("*"@[0] != "%"@[0]); }
    assert("*"@ != "percent"@) by { assert("*"@.len() != "percent"@.len()); }
    assert("×"@ != "/"@) by { assert("×"@[0] != "/"@[0]); }
    assert("×"@ != "÷"@) by { assert("×"@[0] != "÷"@[0]); }
    assert("×"@ != "times"@) by { assert("×"@.len() != "times"@.len()); }
    assert("×"@ != "time"@) by { assert("×"@.len() != "time"@.len()); }
    assert("×"@ != "%"@) by { assert("×"@[0] != "%"@[0]); }
    assert("×"@ != "percent"@) by { assert("×"@.len() != "percent"@.len()); }
    assert("/"@ != "÷"@) by { assert("/"@[0] != "÷"@[0]); }
    assert("/"@ != "times"@) by { assert("/"@.len() != "times"@.len()); }
    assert("/"@ != "time"@) by { assert("/"@.len() != "time"@.len()); }
    assert("/"@ != "%"@) by { assert("/"@[0] != "%"@[0]); }
    assert("/"@ != "percent"@) by { assert("/"@.len() != "percent"@.len()); }
    assert("÷"@ != "times"@) by { assert("÷"@.len() != "times"@.len()); }
    assert("÷"@ != "time"@) by { assert("÷"@.len() != "time"@.len()); }
    assert("÷"@ != "%"@) by { assert("÷"@[0] != "%"@[0]); }
    assert("÷"@ != "percent"@) by { assert("÷"@.len() != "percent"@.len()); }
    assert("times"@ != "time"@) by { assert("times"@.len() != "time"@.len()); }
    assert("times"@ != "%"@) by { assert("times"@.len() != "%"@.len()); }
    assert("times"@ != "percent"@) by { assert("times"@.len() != "percent"@.len()); }
    assert("time"@ != "%"@) by { assert("time"@.len() != "%"@.len()); }
    assert("time"@ != "percent"@) by { assert("time"@.len() != "percent"@.len()); }
    assert("%"@ != "percent"@) by { assert("%"@.len() != "percent"@.len()); }
    assert(!is_digit("+"@[0]));
    assert(!is_digit("plus"@[0]));
    assert(!is_digit("-"@[0]));
    assert(!is_digit("minus"@[0]));
    assert(!is_digit("*"@[0]));
    assert(!is_digit("×"@[0]));
    assert(!is_digit("/"@[0]));
    assert(!is_digit("÷"@[0]));
    assert(!is_digit("times"@[0]));
    assert(!is_digit("time"@[0]));
    assert(!is_digit("%"@[0]));
    assert(!is_digit("percent"@[0]));
    if is_decimal(w) {
        assert(is_digit(w[0])) by {
            if !all_digits(w) {
                let p = choose|p: int|
                    0 < p < w.len() - 1 && #[trigger] w[p] == '.' && all_digits(w.take(p))
                        && all_digits(w.skip(p + 1));
                assert(w.take(p)[0] == w[0]);
            }
        }
        assert(lower(w)[0] == w[0]);
    }
}

#[verifier::spinoff_prover]
proof fn lemma_all_pairs_index(q: Seq<Seq<char>>, p: Seq<Seq<char>>)
    ensures
        all_pairs(q, p).len() == q.len() * p.len(),
        forall|i: int, j: int|
            0 <= i < q.len() && 0 <= j < p.len() ==> #[trigger] all_pairs(q, p)[i * p.len() + j] == (
            q[i],
            p[j],
        ),
    decreases q.len(),
{
    if q.len() > 0 {
        let q0 = q.drop_last();
        lemma_all_pairs_index(q0, p);
        let n = p.len() as int;
        let m = q0.len() as int;
        assert(all_pairs(q, p).len() == m * n + n);
        assert(q.len() * p.len() == m * n + n) by (nonlinear_arith)
            requires
                q.len() == m + 1,
                p.len() == n,
        ;
        assert forall|i: int, j: int| 0 <= i < q.len() && 0 <= j < p.len() implies #[trigger] all_pairs(
            q,
            p,
        )[i * p.len() + j] == (q[i], p[j]) by {
            if i < m {
                assert(i * n + j < m * n) by (nonlinear_arith)
                    requires
                        0 <= i < m,
                        0 <= j < n,
                ;
                assert(q0[i] == q[i]);
                assert(all_pairs(q, p)[i * n + j] == all_pairs(q0, p)[i * n + j]);
            } else {
                assert(i * n == m * n);
                assert(all_pairs(q, p)[i * n + j] == p.map_values(|x: Seq<char>| (q.last(), x))[j]);
            }
        }
    }
}

/// How operands resolve, rule by rule: a percent of a number; else an average
/// of the numbers; else, with quantities and prices and no operator, a total
/// cost pairing quantities with prices one to one when their counts agree and
/// every quantity with every price otherwise, in the operands' currency; else,
/// with an operator, that operator over the values; else a sum where a
/// totalling or summing word joins two or more values; else a lone value;
/// else nothing. The values are the plain numbers, or the price amounts when
/// there are none.
#[verifier::spinoff_prover]
pub proof fn law_resolve_rules(o: OperandsModel)
    ensures
        ({
            let pv = Seq::new(o.prices.len(), |i: int| o.prices[i].0);
            let vl = if o.numbers.len() > 0 { o.numbers } else { pv };
            let percent = o.percents.len() > 0 && o.has_of && o.numbers.len() > 0;
            let average = !percent && o.has_avg && o.numbers.len() > 0;
            let total = !percent && !average && o.quantities.len() > 0 && o.prices.len() > 0
                && o.ops.len() == 0;
            let r = spec_resolve(o);
            &&& percent ==> r == ComputationModel::PercentOf { rate: o.percents[0], base: o.numbers[0] }
            &&& average ==> r == ComputationModel::Average { values: o.numbers }
            &&& total ==> (r matches ComputationModel::TotalCost { items, currency, side } && side
                == o.side && currency == (match o.currency {
                Some(c) => c,
                None => Currency::Dollar,
            }) && (o.quantities.len() == o.prices.len() ==> items.len() == o.quantities.len()
                && forall|k: int| 0 <= k < items.len() ==> #[trigger] items[k] == (o.quantities[k], pv[k]))
                && (o.quantities.len() != o.prices.len() ==> items.len() == o.quantities.len()
                * o.prices.len() && forall|i: int, j: int|
                0 <= i < o.quantities.len() && 0 <= j < o.prices.len() ==> #[trigger] items[i
                * o.prices.len() + j] == (o.quantities[i], pv[j])))
            &&& !percent && !average && o.ops.len() > 0 ==> r == ComputationModel::Arith {
                op: o.ops[0],
                values: vl,
                currency: o.currency,
                side: o.side,
            }
            &&& !percent && !average && !total && o.ops.len() == 0 && (o.has_total || o.has_sum)
                && vl.len() >= 2 ==> r == ComputationModel::Arith {
                op: ArithOp::Add,
                values: vl,
                currency: o.currency,
                side: o.side,
            }
            &&& !percent && !average && !total && o.ops.len() == 0 && vl.len() == 1 ==> r
                == ComputationModel::Single { value: vl[0], currency: o.currency, side: o.side }
            &&& !percent && !average && !total && o.ops.len() == 0 && vl.len() == 0 ==> r
                == ComputationModel::Unknown
            &&& !percent && !average && !total && o.ops.len() == 0 && !(o.has_total || o.has_sum)
                && vl.len() >= 2 ==> r == ComputationModel::Unknown
        }),
{
    let pv = Seq::new(o.prices.len(), |i: int| o.prices[i].0);
    assert(price_values(o.prices) =~= pv);
    lemma_all_pairs_index(o.quantities, pv);
}

/// The currency symbols, as read before or after an amount and as written in
/// answers.
pub proof fn law_currency_symbols()
    ensures
        crate::lexer::currency_of('$') == Some(Currency::Dollar),
        crate::lexer::currency_of('€') == Some(Currency::Euro),
        crate::lexer::currency_of('£') == Some(Currency::Pound),
        crate::lexer::currency_of('¥') == Some(Currency::Yen),
        crate::spec_symbol(Currency::Dollar) == "$"@,
        crate::spec_symbol(Currency::Euro) == "€"@,
        crate::spec_symbol(Currency::Pound) == "£"@,
        crate::spec_symbol(Currency::Yen) == "¥"@,
{
}

/// An answer reads `<label> is <amount>`, with the currency symbol after the
/// amount for a suffix currency and before it for a prefix currency.
pub proof fn law_sentence_layout(
    label: Seq<char>,
    amount: Seq<char>,
    currency: Option<Currency>,
    side: CurrencySide,
)
    ensures
        crate::engine::spec_sentence(label, amount, currency, side) == label + " is "@ + match currency {
            Some(c) => if side == CurrencySide::Suffix {
                amount + crate::spec_symbol(c)
            } else {
                crate::spec_symbol(c) + amount
            },
            None => amount,
        },
{
}

/// A token that marks a sentence as math by itself: an operator, `times`, a
/// currency amount, a quantity, a percent amount or sign, or an operation word.
pub open spec fn is_math_mark(t: TokenModel) -> bool {
    ||| t is Op
    ||| t is Times
    ||| t is Currency
    ||| t is Quantity
    ||| t is PercentValue
    ||| t is Percent
    ||| t matches TokenModel::Word(w) && spec_nl_op(w) is Some
}

/// A word that is not one of the structural math words.
pub open spec fn is_noise_word(t: TokenModel) -> bool {
    t matches TokenModel::Word(w) && !{
        let l = lower(w);
        l == "of"@ || l == "by"@ || l == "and"@ || l == "plus"@ || l == "average"@ || l == "avg"@
            || l == "mean"@ || l == "total"@ || l == "altogether"@ || l == "price"@ || l == "cost"@
            || l == "sum"@ || l == "add"@
    }
}

/// Which sentences count as math: one with a math mark, or with an averaging
/// or totalling word, always does; one with none of these does exactly when
/// it has no noise word.
#[verifier::spinoff_prover]
pub proof fn law_gate(t: Seq<TokenModel>)
    ensures
        (exists|i: int| 0 <= i < t.len() && (is_math_mark(#[trigger] t[i]) || is_average_word(t[i])
            || is_total_word(t[i]))) ==> spec_is_plausible_math(t, spec_extract(t)),
        !(exists|i: int| 0 <= i < t.len() && (is_math_mark(#[trigger] t[i]) || is_average_word(t[i])
            || is_total_word(t[i]))) ==> (spec_is_plausible_math(t, spec_extract(t)) <==> !exists|
            i: int,
        | 0 <= i < t.len() && is_noise_word(#[trigger] t[i])),
{
    law_cue_words(t);
    if exists|i: int| 0 <= i < t.len() && (is_math_mark(#[trigger] t[i]) || is_average_word(t[i])
        || is_total_word(t[i])) {
        let i = choose|i: int| 0 <= i < t.len() && (is_math_mark(#[trigger] t[i]) || is_average_word(
            t[i],
        ) || is_total_word(t[i]));
        if is_math_mark(t[i]) {
            assert(is_anchor_token(t[i]));
        }
    } else {
        assert forall|i: int| 0 <= i < t.len() implies !is_anchor_token(#[trigger] t[i]) by {
            assert(!is_math_mark(t[i]));
        }
        assert forall|i: int| 0 <= i < t.len() implies !is_percent_mark(#[trigger] t[i]) by {
            assert(!is_math_mark(t[i]));
        }
        assert forall|i: int| 0 <= i < t.len() implies (is_noise_word(#[trigger] t[i])
            == crate::plausibility::is_noise_token(t[i])) by {
        }
    }
}

/// A division anywhere keeps the transformer out; otherwise what it reads
/// comes from the input's amounts: two single-digit amounts, or one and the
/// implicit operand 2 or 3 of a multiplying word.
pub proof fn law_transformer_reads_amounts(t: Seq<TokenModel>)
    ensures
        (exists|i: int| 0 <= i < t.len() && #[trigger] t[i] == TokenModel::Op(ArithOp::Div))
            ==> spec_parse_seq(t) is None,
        spec_parse_seq(t) matches Some((a, op, b)) ==> {
            let ns = crate::transformer::operand_texts(t);
            ||| ns.len() == 2 && digit_of(ns[0]) == Some(a as nat) && digit_of(ns[1]) == Some(
                b as nat,
            )
            ||| ns.len() == 1 && digit_of(ns[0]) == Some(a as nat) && op == OpIdx::Mul && (b == 2
                || b == 3)
        },
{
    crate::transformer::lemma_first_op_implicit(t);
    let ns = crate::transformer::operand_texts(t);
    if ns.len() > 0 {
        crate::transformer::lemma_digit_of_small(ns[0]);
    }
    if ns.len() > 1 {
        crate::transformer::lemma_digit_of_small(ns[1]);
    }
    lemma_first_op_mul_implicit(t);
}

proof fn lemma_first_op_mul_implicit(t: Seq<TokenModel>)
    ensures
        first_op(t) matches Some((op, Some(_))) ==> op == OpIdx::Mul,
    decreases t.len(),
{
    if t.len() > 0 {
        lemma_first_op_mul_implicit(t.drop_last());
    }
}

/// A single digit reads as itself.
pub proof fn law_single_digit(c: char)
    requires
        '0' <= c <= '9',
    ensures
        digit_of(seq![c]) == Some((c as int - '0' as int) as nat),
{
    let s = seq![c];
    assert(crate::transformer::point_pos(s.drop_first()) == 0);
    assert(crate::transformer::point_pos(s) == 1);
    assert(s.take(1) =~= s);
    assert(s.drop_last() =~= Seq::<char>::empty());
    assert(crate::transformer::frac_part(s) =~= Seq::<char>::empty());
    assert(crate::transformer::digits_value(s.drop_last()) == 0);
    assert(crate::transformer::digits_value(s) == c as int - '0' as int);
    assert(all_digits(s.take(1)));
    assert(crate::transformer::all_zeros(crate::transformer::frac_part(s)));
}

proof fn lemma_decimal_ends(s: Seq<char>)
    requires
        is_decimal(s),
    ensures
        is_digit(s[0]),
        is_digit(s[s.len() - 1]),
{
    if !all_digits(s) {
        let p = choose|p: int|
            0 < p < s.len() - 1 && #[trigger] s[p] == '.' && all_digits(s.take(p)) && all_digits(
                s.skip(p + 1),
            );
        assert(s.take(p)[0] == s[0]);
        assert(s.skip(p + 1)[s.len() - p - 2] == s[s.len() - 1]);
    }
}

proof fn lemma_ends_not_decimal(s: Seq<char>)
    requires
        s.len() > 0,
        !is_digit(s[0]) || !is_digit(s[s.len() - 1]),
    ensures
        !is_decimal(s),
{
    if is_decimal(s) {
        lemma_decimal_ends(s);
    }
}

proof fn lemma_op_literals()
    ensures
        "+"@.len() == 1,
        "plus"@.len() == 4,
        "-"@.len() == 1,
        "minus"@.len() == 5,
        "*"@.len() == 1,
        "×"@.len() == 1,
        "/"@.len() == 1,
        "÷"@.len() == 1,
        "times"@.len() == 5,
        "time"@.len() == 4,
        "%"@.len() == 1,
        "percent"@.len() == 7,
        "+"@[0] == '+' && "+"@[0] == '+',
        "plus"@[0] == 'p' && "plus"@[3] == 's',
        "-"@[0] == '-' && "-"@[0] == '-',
        "minus"@[0] == 'm' && "minus"@[4] == 's',
        "*"@[0] == '*' && "*"@[0] == '*',
        "×"@[0] == '×' && "×"@[0] == '×',
        "/"@[0] == '/' && "/"@[0] == '/',
        "÷"@[0] == '÷' && "÷"@[0] == '÷',
        "times"@[0] == 't' && "times"@[4] == 's',
        "time"@[0] == 't' && "time"@[3] == 'e',
        "%"@[0] == '%' && "%"@[0] == '%',
        "percent"@[0] == 'p' && "percent"@[6] == 't',
{
    reveal_strlit("+");
    reveal_strlit("plus");
    reveal_strlit("-");
    reveal_strlit("minus");
    reveal_strlit("*");
    reveal_strlit("×");
    reveal_strlit("/");
    reveal_strlit("÷");
    reveal_strlit("times");
    reveal_strlit("time");
    reveal_strlit("%");
    reveal_strlit("percent");
    reveal_strlit("times");
    reveal_strlit("time");
}

/// A decimal literal followed by `%` is a percent amount.
#[verifier::spinoff_prover]
pub proof fn law_percent_amount(v: Seq<char>)
    requires
        is_decimal(v),
    ensures
        classify(v.push('%')) == TokenModel::PercentValue(v),
{
    lemma_op_literals();
    lemma_decimal_ends(v);
    let n = v.len() as int;
    let w = v.push('%');
    assert(lower(w)[n] == '%');
    assert(lower(w)[0] == v[0]);
    lemma_ends_not_decimal(w);
    assert(w.take(n) =~= v);
}

/// A decimal literal followed by a currency symbol is a price written with a
/// suffix symbol, and preceded by one a price written with a prefix symbol.
#[verifier::spinoff_prover]
pub proof fn law_price_amount(v: Seq<char>, c: char)
    requires
        is_decimal(v),
    ensures
        crate::lexer::currency_of(c) matches Some(cur) ==> classify(v.push(c))
            == (TokenModel::Currency { value: v, cur, side: CurrencySide::Suffix }),
        crate::lexer::currency_of(c) matches Some(cur) ==> classify(seq![c] + v)
            == (TokenModel::Currency { value: v, cur, side: CurrencySide::Prefix }),
{
    if crate::lexer::currency_of(c) is Some {
        lemma_suffix_price(v, c);
        lemma_prefix_price(v, c);
    }
}

proof fn lemma_suffix_price(v: Seq<char>, c: char)
    requires
        is_decimal(v),
        crate::lexer::currency_of(c) is Some,
    ensures
        classify(v.push(c)) == (TokenModel::Currency {
            value: v,
            cur: crate::lexer::currency_of(c)->0,
            side: CurrencySide::Suffix,
        }),
{
    lemma_op_literals();
    lemma_decimal_ends(v);
    let n = v.len() as int;
    let ws = v.push(c);
    assert(lower(ws)[n] == c);
    assert(lower(ws)[0] == v[0]);
    lemma_ends_not_decimal(ws);
    assert(ws.take(n) =~= v);
    assert(ws[n] == c);
}

proof fn lemma_prefix_price(v: Seq<char>, c: char)
    requires
        is_decimal(v),
        crate::lexer::currency_of(c) is Some,
    ensures
        classify(seq![c] + v) == (TokenModel::Currency {
            value: v,
            cur: crate::lexer::currency_of(c)->0,
            side: CurrencySide::Prefix,
        }),
{
    lemma_op_literals();
    lemma_decimal_ends(v);
    let n = v.len() as int;
    let wp = seq![c] + v;
    assert(lower(wp)[0] == c);
    assert(lower(wp)[n] == v[n - 1]);
    assert(wp[n] == v[n - 1]);
    lemma_ends_not_decimal(wp);
    assert(wp.skip(1) =~= v);
}

/// A decimal literal followed by `times` or `time`, in any case, is a
/// quantity.
#[verifier::spinoff_prover]
pub proof fn law_quantity_amount(v: Seq<char>, m: Seq<char>)
    requires
        is_decimal(v),
    ensures
        lower(m) == "times"@ || lower(m) == "time"@ ==> classify(v + m) == TokenModel::Quantity(v),
{
    lemma_op_literals();
    lemma_decimal_ends(v);
    if lower(m) == "times"@ || lower(m) == "time"@ {
        let n = v.len() as int;
        let wq = v + m;
        let k = m.len() as int;
        assert(lower(wq)[0] == v[0]);
        assert(lower(wq)[n + k - 1] == lower(m)[k - 1]);
        assert(lower(wq.skip(n)) =~= lower(m)) by {
            assert(wq.skip(n) =~= m);
        }
        assert(wq.take(n) =~= v);
        assert(wq[n + k - 1] == m[k - 1]);
        assert(wq[0] == v[0]);
        lemma_ends_not_decimal(wq);
        if lower(m) == "time"@ {
            assert(lower(wq.skip(n + k - 5))[4] == lower(m)[3]);
        }
    }
}

/// The evidence for each computation kind, in slot order: a total cost counts
/// the matched quantity-price pairs when there is no operator; arithmetic
/// counts each operator twice plus one for a totalling or summing word over two
/// or more values (unless an average was asked for); an average counts the
/// values; a percent counts percent-number pairs; a lone value counts once when
/// nothing relates it to another operand. The values are the plain numbers, or
/// the prices when there are none.
#[verifier::spinoff_prover]
pub proof fn law_relevance(o: OperandsModel)
    ensures
        ({
            let r = crate::underspec::spec_relevance(o);
            let q = o.quantities.len() as int;
            let p = o.prices.len() as int;
            let n = if o.numbers.len() > 0 { o.numbers.len() as int } else { p };
            &&& r.len() == 5
            &&& r[0] == if o.ops.len() == 0 && q > 0 && p > 0 { if q < p { q } else { p } } else { 0 }
            &&& r[1] == 2 * o.ops.len() + if !o.has_avg && (o.has_total || o.has_sum) && n >= 2 {
                1int
            } else {
                0int
            }
            &&& r[2] == if o.has_avg { n } else { 0 }
            &&& r[3] == if o.percents.len() > 0 && o.has_of && o.numbers.len() > 0 {
                o.percents.len() * o.numbers.len()
            } else {
                0
            }
            &&& r[4] == if n == 1 && o.ops.len() == 0 && q == 0 && o.percents.len() == 0 && !o.has_of
                && !o.has_avg {
                1int
            } else {
                0int
            }
        }),
{
    let r = crate::underspec::spec_relevance(o);
    let n = crate::underspec::spec_value_count(o);
    assert(r[0] == crate::underspec::spec_total_cost_weight(o) as int);
    assert(r[1] == crate::underspec::spec_arith_weight(o, n) as int);
    assert(r[2] == crate::underspec::spec_average_weight(o, n) as int);
    assert(r[3] == crate::underspec::spec_percent_weight(o) as int);
    assert(r[4] == crate::underspec::spec_single_weight(o, n) as int);
}

} // verus!
