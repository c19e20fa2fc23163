use latent_calculator::extract::extract;
use latent_calculator::lexer::lex;
use latent_calculator::underspec::relevance;

fn rel(s: &str) -> [u128; 5] {
    relevance(&extract(&lex(s)))
}

#[test]
fn spec_input_points_at_total_cost() {
    assert_eq!(rel("I buy persona5 3time each item 20$ in what is price total"), [1, 0, 0, 0, 0]);
}

#[test]
fn two_bare_numbers_have_no_evidence() {
    assert_eq!(rel("20 30"), [0, 0, 0, 0, 0]);
}

#[test]
fn plain_single_value_points_at_single() {
    assert_eq!(rel("20$"), [0, 0, 0, 0, 1]);
}

#[test]
fn average_input_points_at_average() {
    assert_eq!(rel("average of 4 8 and 12"), [0, 0, 3, 0, 0]);
}

#[test]
fn percent_of_points_at_percent() {
    assert_eq!(rel("20% of 50"), [0, 0, 0, 1, 0]);
}

#[test]
fn operators_count_double() {
    assert_eq!(rel("5 plus 3 minus 1 total"), [0, 5, 0, 0, 0]);
}
