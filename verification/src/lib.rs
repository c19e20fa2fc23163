//! A natural-language calculator without learned weights: a lexer, an operand
//! extractor, an intent resolver, a plausibility gate and a small analytical
//! transformer, each with a verified contract.

pub mod text;
pub mod lexer;
pub mod extract;
pub mod intent;
pub mod engine;
pub mod transformer;
pub mod plausibility;
pub mod underspec;
pub mod laws;

use vstd::prelude::*;

use crate::engine::{answer_form, spec_answer_form, AnswerForm};
use crate::extract::{extract, spec_extract, Operands};
use crate::intent::{resolve, spec_resolve, Computation, ComputationModel};
use crate::lexer::{lex, spec_lex, views, Token, TokenModel};
use crate::plausibility::{is_plausible_math, spec_is_plausible_math};
use crate::transformer::{parse_seq, spec_parse_seq, OpIdx};

verus! {

/// Currencies recognised next to an amount.
#[derive(Debug, Clone, Copy, PartialEq, Eq, Structural)]
pub enum Currency {
    Dollar,
    Euro,
    Pound,
    Yen,
}

/// The symbol written for each currency.
pub open spec fn spec_symbol(c: Currency) -> Seq<char> {
    match c {
        Currency::Dollar => "$"@,
        Currency::Euro => "€"@,
        Currency::Pound => "£"@,
        Currency::Yen => "¥"@,
    }
}

impl Currency {
    pub fn symbol(self) -> (s: &'static str)
        ensures
            s@ == spec_symbol(self),
    {
        match self {
            Currency::Dollar => "$",
            Currency::Euro => "€",
            Currency::Pound => "£",
            Currency::Yen => "¥",
        }
    }
}

/// Whether a currency symbol stands after the amount (`20$`) or before it (`$20`).
#[derive(Debug, Clone, Copy, PartialEq, Eq, Structural)]
pub enum CurrencySide {
    Suffix,
    Prefix,
}

impl Default for CurrencySide {
    fn default() -> (s: Self)
        ensures
            s == CurrencySide::Suffix,
    {
        CurrencySide::Suffix
    }
}

/// The four arithmetic operations.
#[derive(Debug, Clone, Copy, PartialEq, Eq, Structural)]
pub enum ArithOp {
    Add,
    Sub,
    Mul,
    Div,
}

/// Why an input has no answer.
#[derive(Debug, Clone, Copy, PartialEq, Eq, Structural)]
pub enum ParseError {
    /// The input reads as math but no computation could be made of it.
    Unknown,
    /// The input does not look like a math question.
    NotMath,
}

/// A resolved computation together with the form of its answer.
#[derive(Debug, Clone, PartialEq)]
pub struct Plan<'a> {
    pub computation: Computation<'a>,
    pub form: AnswerForm,
}

/// Which engine answers an input.
#[derive(Debug, Clone, PartialEq)]
pub enum Route<'a> {
    /// The analytical transformer evaluates `a op b` over single digits.
    Transformer { a: usize, op: OpIdx, b: usize },
    /// The rule-based engine computes the plan.
    Rules(Plan<'a>),
}

/// The rule-based plan for an input with characters `s`: the computation its
/// operands resolve to, and the answer's form, when there is one.
pub open spec fn spec_plan(s: Seq<char>) -> Option<
    (ComputationModel, (Seq<char>, Option<Currency>, CurrencySide)),
> {
    spec_plan_tokens(spec_lex(s))
}

/// The rule-based plan for tokens `t`.
pub open spec fn spec_plan_tokens(t: Seq<TokenModel>) -> Option<
    (ComputationModel, (Seq<char>, Option<Currency>, CurrencySide)),
> {
    let c = spec_resolve(spec_extract(t));
    match spec_answer_form(c) {
        Some(f) => Some((c, f)),
        None => None,
    }
}

/// Whether `r` is the rule-based outcome for tokens `t`.
pub open spec fn plans_tokens_as<'a>(t: Seq<TokenModel>, r: Result<Plan<'a>, ParseError>) -> bool {
    match r {
        Ok(p) => spec_plan_tokens(t) == Some((p.computation@, p.form@)),
        Err(e) => e == ParseError::Unknown && spec_plan_tokens(t) is None,
    }
}

/// Whether `r` is the rule-based outcome for an input with characters `s`.
pub open spec fn plans_as<'a>(s: Seq<char>, r: Result<Plan<'a>, ParseError>) -> bool {
    plans_tokens_as(spec_lex(s), r)
}

fn plan_tokens<'a>(tokens: &[Token<'a>], operands: &Operands<'a>) -> (r: Result<Plan<'a>, ParseError>)
    requires
        operands@ == spec_extract(views(tokens@)),
    ensures
        plans_tokens_as(views(tokens@), r),
{
    let computation = resolve(operands);
    match answer_form(&computation) {
        Some(form) => Ok(Plan { computation, form }),
        None => Err(ParseError::Unknown),
    }
}

/// Entry point of the calculator.
pub struct Calculator;

impl Calculator {
    /// The rule-based engine: lex, extract, resolve, and settle the answer's
    /// form. Fails with `Unknown` exactly when there is nothing to compute.
    pub fn plan<'a>(input: &'a str) -> (r: Result<Plan<'a>, ParseError>)
        ensures
            plans_as(input@, r),
    {
        let tokens = lex(input);
        let operands = extract(tokens.as_slice());
        plan_tokens(tokens.as_slice(), &operands)
    }

    /// The fused pipeline: the transformer answers what it can read; otherwise
    /// input that does not look like math is refused with `NotMath`; otherwise
    /// the rule-based engine decides.
    pub fn plan_fused<'a>(input: &'a str) -> (r: Result<Route<'a>, ParseError>)
        ensures
            ({
                let t = spec_lex(input@);
                match spec_parse_seq(t) {
                    Some((a, op, b)) => r == Ok::<Route<'a>, ParseError>(
                        Route::Transformer { a, op, b },
                    ),
                    None => if !spec_is_plausible_math(t, spec_extract(t)) {
                        r == Err::<Route<'a>, ParseError>(ParseError::NotMath)
                    } else {
                        match r {
                            Ok(Route::Rules(p)) => plans_as(input@, Ok(p)),
                            Ok(Route::Transformer { .. }) => false,
                            Err(e) => plans_as(input@, Err(e)),
                        }
                    },
                }
            }),
    {
        let tokens = lex(input);
        if let Some((a, op, b)) = parse_seq(tokens.as_slice()) {
            return Ok(Route::Transformer { a, op, b });
        }
        let operands = extract(tokens.as_slice());
        if !is_plausible_math(tokens.as_slice(), &operands) {
            return Err(ParseError::NotMath);
        }
        match plan_tokens(tokens.as_slice(), &operands) {
            Ok(p) => Ok(Route::Rules(p)),
            Err(e) => Err(e),
        }
    }
}

} // verus!
