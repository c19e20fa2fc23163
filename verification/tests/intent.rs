use latent_calculator::extract::extract;
use latent_calculator::intent::{resolve, Computation};
use latent_calculator::lexer::{lex, Num};
use latent_calculator::{ArithOp, Currency, CurrencySide};

fn value(n: &Num) -> f64 {
    n.text.parse::<f64>().unwrap()
}

fn resolve_str(s: &str) -> Computation<'_> {
    resolve(&extract(&lex(s)))
}

#[test]
fn spec_is_total_cost() {
    let c = resolve_str("I buy persona5 3time each item 20$ in what is price total");
    match c {
        Computation::TotalCost { items, currency, side } => {
            let items: Vec<(f64, f64)> = items.iter().map(|(q, p)| (value(q), value(p))).collect();
            assert_eq!(items, vec![(3.0, 20.0)]);
            assert_eq!(currency, Currency::Dollar);
            assert_eq!(side, CurrencySide::Suffix);
        }
        other => panic!("expected a total cost, got {:?}", other),
    }
}

#[test]
fn percent_of() {
    let c = resolve_str("20% of 50");
    match c {
        Computation::PercentOf { rate, base } => {
            assert_eq!(value(&rate), 20.0);
            assert_eq!(value(&base), 50.0);
        }
        other => panic!("expected a percent, got {:?}", other),
    }
}

#[test]
fn average_of_numbers() {
    match resolve_str("average of 4 8 and 12") {
        Computation::Average { values } => {
            assert_eq!(values.iter().map(value).collect::<Vec<f64>>(), vec![4.0, 8.0, 12.0])
        }
        other => panic!("expected an average, got {:?}", other),
    }
}

#[test]
fn first_operator_wins() {
    match resolve_str("5 plus 3 minus 1") {
        Computation::Arith { op, values, currency, side } => {
            assert_eq!(op, ArithOp::Add);
            assert_eq!(values.iter().map(value).collect::<Vec<f64>>(), vec![5.0, 3.0, 1.0]);
            assert_eq!(currency, None);
            assert_eq!(side, CurrencySide::Suffix);
        }
        other => panic!("expected arithmetic, got {:?}", other),
    }
}

#[test]
fn summing_word_adds_prices() {
    match resolve_str("$3 and $4") {
        Computation::Arith { op, values, currency, side } => {
            assert_eq!(op, ArithOp::Add);
            assert_eq!(values.iter().map(value).collect::<Vec<f64>>(), vec![3.0, 4.0]);
            assert_eq!(currency, Some(Currency::Dollar));
            assert_eq!(side, CurrencySide::Prefix);
        }
        other => panic!("expected a sum, got {:?}", other),
    }
}

#[test]
fn lone_value_is_echoed() {
    match resolve_str("20$") {
        Computation::Single { value: v, currency, side } => {
            assert_eq!(value(&v), 20.0);
            assert_eq!(currency, Some(Currency::Dollar));
            assert_eq!(side, CurrencySide::Suffix);
        }
        other => panic!("expected a single value, got {:?}", other),
    }
}

#[test]
fn two_bare_numbers_are_unknown() {
    assert_eq!(resolve_str("20 30"), Computation::Unknown);
    assert_eq!(resolve_str("hello"), Computation::Unknown);
}

#[test]
fn unequal_quantities_and_prices_pair_every_way() {
    match resolve_str("2 items 3 copies $5") {
        Computation::TotalCost { items, .. } => {
            let items: Vec<(f64, f64)> = items.iter().map(|(q, p)| (value(q), value(p))).collect();
            assert_eq!(items, vec![(2.0, 5.0), (3.0, 5.0)]);
        }
        other => panic!("expected a total cost, got {:?}", other),
    }
    match resolve_str("2 items 3 copies $5 $7") {
        Computation::TotalCost { items, .. } => {
            let items: Vec<(f64, f64)> = items.iter().map(|(q, p)| (value(q), value(p))).collect();
            assert_eq!(items, vec![(2.0, 5.0), (3.0, 7.0)]);
        }
        other => panic!("expected a total cost, got {:?}", other),
    }
}

#[test]
fn total_cost_uses_first_price_currency() {
    match resolve_str("3 copies 5€ $2") {
        Computation::TotalCost { items, currency, side } => {
            assert_eq!(items.len(), 2);
            assert_eq!(currency, Currency::Euro);
            assert_eq!(side, CurrencySide::Suffix);
        }
        other => panic!("expected a total cost, got {:?}", other),
    }
}

#[test]
fn times_before_price_counts_items() {
    match resolve_str("4 times 2.5$") {
        Computation::TotalCost { items, currency, side } => {
            let items: Vec<(f64, f64)> = items.iter().map(|(q, p)| (value(q), value(p))).collect();
            assert_eq!(items, vec![(4.0, 2.5)]);
            assert_eq!(currency, Currency::Dollar);
            assert_eq!(side, CurrencySide::Suffix);
        }
        other => panic!("expected a total cost, got {:?}", other),
    }
}

#[test]
fn planned_amounts_read_as_numbers() {
    let inputs = ["3.5 copies 2.25€ total", "average of 0.5 07 and 12", "12.0% of 050", "1. 2.x .5 7"];
    for s in inputs {
        let c = resolve_str(s);
        let amounts: Vec<Num> = match &c {
            Computation::TotalCost { items, .. } => items.iter().flat_map(|(q, p)| [*q, *p]).collect(),
            Computation::Arith { values, .. } | Computation::Average { values } => values.clone(),
            Computation::PercentOf { rate, base } => vec![*rate, *base],
            Computation::Single { value, .. } => vec![*value],
            Computation::Unknown => vec![],
        };
        assert!(!amounts.is_empty(), "{s}");
        for n in amounts {
            assert!(n.text.parse::<f64>().is_ok(), "{}", n.text);
        }
    }
}
