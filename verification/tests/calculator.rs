use latent_calculator::engine::{answer_form, label_of, sentence};
use latent_calculator::intent::Computation;
use latent_calculator::transformer::OpIdx;
use latent_calculator::{ArithOp, Calculator, Currency, CurrencySide, ParseError, Route};

#[test]
fn spec_example() {
    let p = Calculator::plan("I buy persona5 3time each item 20$ in what is price total")
        .expect("spec must parse");
    let value: f64 = match &p.computation {
        Computation::TotalCost { items, .. } => items
            .iter()
            .map(|(q, pr)| q.text.parse::<f64>().unwrap() * pr.text.parse::<f64>().unwrap())
            .sum(),
        other => panic!("expected a total cost, got {:?}", other),
    };
    assert_eq!(value, 60.0);
    assert_eq!(p.form.currency, Some(Currency::Dollar));
    assert_eq!(p.form.side, CurrencySide::Suffix);
    assert_eq!(sentence(p.form.label, "60", p.form.currency, p.form.side), "total is 60$");
}

#[test]
fn plan_labels() {
    assert_eq!(Calculator::plan("5 plus 3").unwrap().form.label, "sum");
    assert_eq!(Calculator::plan("9 minus 3").unwrap().form.label, "difference");
    assert_eq!(Calculator::plan("3 times 4").unwrap().form.label, "product");
    assert_eq!(Calculator::plan("8 / 2").unwrap().form.label, "quotient");
    assert_eq!(Calculator::plan("average of 4 8 and 12").unwrap().form.label, "average");
    assert_eq!(Calculator::plan("20% of 50").unwrap().form.label, "result");
    assert_eq!(Calculator::plan("20").unwrap().form.label, "result");
}

#[test]
fn plan_unknown() {
    assert_eq!(Calculator::plan("20 30"), Err(ParseError::Unknown));
    assert_eq!(Calculator::plan("hello world"), Err(ParseError::Unknown));
    assert_eq!(Calculator::plan("plus"), Err(ParseError::Unknown));
}

#[test]
fn fused_routes() {
    assert_eq!(
        Calculator::plan_fused("2 buy 1"),
        Ok(Route::Transformer { a: 2, op: OpIdx::Add, b: 1 })
    );
    assert_eq!(
        Calculator::plan_fused("double 5"),
        Ok(Route::Transformer { a: 5, op: OpIdx::Mul, b: 2 })
    );
    assert_eq!(
        Calculator::plan_fused("5 plus 3"),
        Ok(Route::Transformer { a: 5, op: OpIdx::Add, b: 3 })
    );
    assert_eq!(Calculator::plan_fused("why 2 dog die 1"), Err(ParseError::NotMath));
    assert_eq!(Calculator::plan_fused("why 2 dog and die 1"), Err(ParseError::NotMath));
    match Calculator::plan_fused("3 time each item 20$ total") {
        Ok(Route::Rules(p)) => {
            assert_eq!(p.form.label, "total");
            assert_eq!(p.form.currency, Some(Currency::Dollar));
        }
        other => panic!("expected the rule-based engine, got {:?}", other),
    }
    match Calculator::plan_fused("20% of 50") {
        Ok(Route::Rules(p)) => assert!(matches!(p.computation, Computation::PercentOf { .. })),
        other => panic!("expected the rule-based engine, got {:?}", other),
    }
    assert_eq!(Calculator::plan_fused("20 30"), Err(ParseError::Unknown));
}

#[test]
fn sentences_place_the_symbol() {
    assert_eq!(sentence("total", "60", Some(Currency::Dollar), CurrencySide::Suffix), "total is 60$");
    assert_eq!(sentence("total", "60", Some(Currency::Euro), CurrencySide::Prefix), "total is €60");
    assert_eq!(sentence("sum", "8", None, CurrencySide::Prefix), "sum is 8");
    assert_eq!(Currency::Pound.symbol(), "£");
    assert_eq!(Currency::Yen.symbol(), "¥");
}

#[test]
fn forms_of_computations() {
    assert_eq!(answer_form(&Computation::Unknown), None);
    assert_eq!(
        answer_form(&Computation::Arith {
            op: ArithOp::Add,
            values: vec![],
            currency: None,
            side: CurrencySide::Suffix
        }),
        None
    );
    assert_eq!(answer_form(&Computation::Average { values: vec![] }), None);
    assert_eq!(label_of(ArithOp::Div), "quotient");
}
