use latent_calculator::extract::extract;
use latent_calculator::lexer::lex;
use latent_calculator::plausibility::{has_noise, is_math_keyword, is_plausible_math};

fn check(s: &str) -> bool {
    let t = lex(s);
    is_plausible_math(&t, &extract(&t))
}

#[test]
fn rejects_nonsense_with_noise() {
    assert!(!check("why 2 dog and die 1"));
    assert!(!check("the quick brown fox"));
    assert!(!check("hello world"));
}

#[test]
fn accepts_strong_anchors() {
    assert!(check("I buy persona5 3time each item 20$ in what is price total"));
    assert!(check("3 copies at $20 total"));
    assert!(check("5 plus 3"));
    assert!(check("3 times 4"));
    assert!(check("average of 4 8 and 12"));
    assert!(check("20% of 50"));
    assert!(check("2 buy 1"));
    assert!(check("double 5"));
}

#[test]
fn accepts_terse_pure_math() {
    assert!(check("5 and 3"));
    assert!(check("20"));
    assert!(check("20 30"));
}

#[test]
fn math_keywords_and_noise() {
    assert!(is_math_keyword("Total"));
    assert!(is_math_keyword("of"));
    assert!(!is_math_keyword("dog"));
    assert!(is_math_keyword("plus"));
    assert!(is_math_keyword("ADD"));
    assert!(!has_noise(&lex("add 5 plus 3")));
    assert!(has_noise(&lex("5 dogs")));
    assert!(!has_noise(&lex("5 AND 3")));
}
