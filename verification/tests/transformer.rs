use latent_calculator::lexer::{lex, Num};
use latent_calculator::transformer::{as_digit, is_nl_op_word, parse_seq, result_of, OpIdx};

fn slot(op: OpIdx) -> usize {
    match op {
        OpIdx::Add => 0,
        OpIdx::Sub => 1,
        OpIdx::Mul => 2,
    }
}

/// The value the transformer's readout stands for, read through the verified
/// front end.
fn evaluate(s: &str) -> Option<f64> {
    let t = lex(s);
    parse_seq(&t).map(|(a, op, b)| result_of(slot(op), a, b) as f64)
}

#[test]
fn add() {
    assert_eq!(evaluate("3 + 5"), Some(8.0));
    assert_eq!(evaluate("7 plus 2"), Some(9.0));
    assert_eq!(evaluate("0 + 0"), Some(0.0));
}

#[test]
fn sub() {
    assert_eq!(evaluate("9 - 4"), Some(5.0));
    assert_eq!(evaluate("2 minus 9"), Some(-7.0));
}

#[test]
fn mul() {
    assert_eq!(evaluate("9 times 9"), Some(81.0));
    assert_eq!(evaluate("6 * 7"), Some(42.0));
    assert_eq!(evaluate("0 * 9"), Some(0.0));
}

#[test]
fn rejects_out_of_vocab() {
    assert_eq!(evaluate("12 + 3"), None);
    assert_eq!(evaluate("8 / 2"), None);
    assert_eq!(evaluate("5 plus"), None);
}

#[test]
fn natural_language_operations() {
    assert_eq!(evaluate("2 buy 1"), Some(3.0));
    assert_eq!(evaluate("5 eat 2"), Some(3.0));
    assert_eq!(evaluate("double 5"), Some(10.0));
    assert_eq!(evaluate("triple 3"), Some(9.0));
    assert_eq!(parse_seq(&lex("double 5")), Some((5, OpIdx::Mul, 2)));
    assert_eq!(evaluate("double 5 3"), None);
    assert!(is_nl_op_word("Spend"));
    assert!(!is_nl_op_word("dog"));
}

#[test]
fn first_operator_is_read() {
    assert_eq!(parse_seq(&lex("4 - 1 + 2")), None);
    assert_eq!(parse_seq(&lex("4 - 1 plus")), Some((4, OpIdx::Sub, 1)));
    assert_eq!(parse_seq(&lex("3time + 2")), Some((3, OpIdx::Add, 2)));
    assert_eq!(parse_seq(&lex("3 + 2 / 1")), None);
}

#[test]
fn digits_of_literals() {
    assert_eq!(as_digit(Num { text: "7" }), Some(7));
    assert_eq!(as_digit(Num { text: "07" }), Some(7));
    assert_eq!(as_digit(Num { text: "3.000" }), Some(3));
    assert_eq!(as_digit(Num { text: "3.5" }), None);
    assert_eq!(as_digit(Num { text: "10" }), None);
    assert_eq!(as_digit(Num { text: "0" }), Some(0));
}

#[test]
fn exact_results() {
    assert_eq!(result_of(0, 4, 5), 9);
    assert_eq!(result_of(1, 2, 9), -7);
    assert_eq!(result_of(2, 6, 7), 42);
}
