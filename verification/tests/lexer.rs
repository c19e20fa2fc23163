use latent_calculator::lexer::{is_count_unit, lex, Token};
use latent_calculator::{ArithOp, Currency, CurrencySide};

#[test]
fn one_token_per_word() {
    let t = lex("  I buy   persona5\t3time each item 20$ ");
    assert_eq!(t.len(), 7);
    assert!(matches!(t[0], Token::Word("I")));
    assert!(matches!(t[2], Token::Word("persona5")));
    match t[3] {
        Token::Quantity(n) => assert_eq!(n.text, "3"),
        _ => panic!("expected a quantity"),
    }
    match t[6] {
        Token::Currency { value, cur, side } => {
            assert_eq!(value.text, "20");
            assert_eq!(cur, Currency::Dollar);
            assert_eq!(side, CurrencySide::Suffix);
        }
        _ => panic!("expected a currency amount"),
    }
}

#[test]
fn operators_as_symbols_and_words() {
    let t = lex("+ plus - MINUS * × / ÷ times time % percent");
    let ops: Vec<Token> = t;
    assert_eq!(ops[0], Token::Op(ArithOp::Add));
    assert_eq!(ops[1], Token::Op(ArithOp::Add));
    assert_eq!(ops[2], Token::Op(ArithOp::Sub));
    assert_eq!(ops[3], Token::Op(ArithOp::Sub));
    assert_eq!(ops[4], Token::Op(ArithOp::Mul));
    assert_eq!(ops[5], Token::Op(ArithOp::Mul));
    assert_eq!(ops[6], Token::Op(ArithOp::Div));
    assert_eq!(ops[7], Token::Op(ArithOp::Div));
    assert_eq!(ops[8], Token::Times);
    assert_eq!(ops[9], Token::Times);
    assert_eq!(ops[10], Token::Percent);
    assert_eq!(ops[11], Token::Percent);
}

#[test]
fn amounts_and_their_marks() {
    let t = lex("3.25 20% £7 9¥ 4TIMES 1. .5 2.x");
    match t[0] {
        Token::Number(n) => assert_eq!(n.text, "3.25"),
        _ => panic!("expected a number"),
    }
    match t[1] {
        Token::PercentValue(n) => assert_eq!(n.text, "20"),
        _ => panic!("expected a percent amount"),
    }
    match t[2] {
        Token::Currency { value, cur, side } => {
            assert_eq!((value.text, cur, side), ("7", Currency::Pound, CurrencySide::Prefix))
        }
        _ => panic!("expected a currency amount"),
    }
    match t[3] {
        Token::Currency { value, cur, side } => {
            assert_eq!((value.text, cur, side), ("9", Currency::Yen, CurrencySide::Suffix))
        }
        _ => panic!("expected a currency amount"),
    }
    match t[4] {
        Token::Quantity(n) => assert_eq!(n.text, "4"),
        _ => panic!("expected a quantity"),
    }
    assert!(matches!(t[5], Token::Word("1.")));
    assert!(matches!(t[6], Token::Word(".5")));
    assert!(matches!(t[7], Token::Word("2.x")));
}

#[test]
fn empty_input_has_no_tokens() {
    assert!(lex("").is_empty());
    assert!(lex(" \t\n ").is_empty());
}

#[test]
fn count_units() {
    assert!(is_count_unit("copies"));
    assert!(is_count_unit("Items"));
    assert!(!is_count_unit("each"));
}
