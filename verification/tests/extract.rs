use latent_calculator::extract::extract;
use latent_calculator::lexer::{lex, Num, Token};
use latent_calculator::{ArithOp, Currency, CurrencySide};

fn values(ns: &[Num]) -> Vec<f64> {
    ns.iter().map(|n| n.text.parse::<f64>().unwrap()).collect()
}

#[test]
fn spec_extracts_qty_and_price() {
    let t = lex("I buy persona5 3time each item 20$ in what is price total");
    let o = extract(&t);
    assert_eq!(values(&o.quantities), vec![3.0]);
    let prices: Vec<(f64, Currency)> =
        o.prices.iter().map(|(p, c)| (p.text.parse::<f64>().unwrap(), *c)).collect();
    assert_eq!(prices, vec![(20.0, Currency::Dollar)]);
    assert!(o.has_total);
    assert_eq!(o.side, CurrencySide::Suffix);
}

#[test]
fn times_between_numbers_is_mul() {
    let t = lex("3 times 4");
    let o = extract(&t);
    assert_eq!(values(&o.numbers), vec![3.0, 4.0]);
    assert_eq!(o.ops, vec![ArithOp::Mul]);
    assert!(o.quantities.is_empty());
}

#[test]
fn trailing_times_is_a_quantity() {
    let t = lex("3 times each");
    let o = extract(&t);
    assert_eq!(values(&o.quantities), vec![3.0]);
    assert!(o.numbers.is_empty());
    assert!(o.ops.is_empty());
}

#[test]
fn count_unit_makes_a_quantity() {
    let t = lex("3 copies at $20 total");
    let o = extract(&t);
    assert_eq!(values(&o.quantities), vec![3.0]);
    assert_eq!(o.currency, Some(Currency::Dollar));
    assert_eq!(o.side, CurrencySide::Prefix);
    assert!(o.has_total);
}

#[test]
fn first_price_sets_the_currency() {
    let t = lex("5€ and $3 total");
    let o = extract(&t);
    assert_eq!(o.prices.len(), 2);
    assert_eq!(o.currency, Some(Currency::Euro));
    assert_eq!(o.side, CurrencySide::Suffix);
    assert!(o.has_sum);
}

#[test]
fn word_cues_are_case_insensitive() {
    let t = lex("AVERAGE Of 4 8");
    let o = extract(&t);
    assert!(o.has_avg);
    assert!(o.has_of);
    assert_eq!(values(&o.numbers), vec![4.0, 8.0]);
}

#[test]
fn every_amount_is_kept() {
    let t = lex("3 times 4 and 5 items 2$ 7time 20% 1.5");
    let o = extract(&t);
    // numbers 3, 4, 1.5 and quantities 5, 7: five plain amounts in all
    assert_eq!(o.numbers.len() + o.quantities.len(), 5);
    assert_eq!(o.prices.len(), 1);
    assert_eq!(o.percents.len(), 1);
    assert!(o.has_percent);
    assert!(matches!(t[0], Token::Number(_)));
}

#[test]
fn amounts_keep_input_order() {
    let t = lex("2 times 3 $4 7 items 5€ 9 times 6% 1 8%");
    let o = extract(&t);
    assert_eq!(values(&o.numbers), vec![2.0, 3.0, 1.0]);
    assert_eq!(values(&o.quantities), vec![7.0, 9.0]);
    let prices: Vec<(f64, Currency)> =
        o.prices.iter().map(|(p, c)| (p.text.parse::<f64>().unwrap(), *c)).collect();
    assert_eq!(prices, vec![(4.0, Currency::Dollar), (5.0, Currency::Euro)]);
    assert_eq!(values(&o.percents), vec![6.0, 8.0]);
    assert_eq!(o.currency, Some(Currency::Dollar));
    assert_eq!(o.side, CurrencySide::Prefix);
}
