//! The form of an answer: which label it carries and how its currency is
//! written. The numeric value itself is computed in floating point outside
//! this library.

use vstd::prelude::*;

use crate::intent::{Computation, ComputationModel};
use crate::{spec_symbol, ArithOp, Currency, CurrencySide};

verus! {

/// How an answer is rendered: `<label> is <amount>` with the currency symbol
/// on `side`, if there is a currency.
#[derive(Debug, Clone, Copy, PartialEq)]
pub struct AnswerForm {
    pub label: &'static str,
    pub currency: Option<Currency>,
    pub side: CurrencySide,
}

impl View for AnswerForm {
    type V = (Seq<char>, Option<Currency>, CurrencySide);

    open spec fn view(&self) -> (Seq<char>, Option<Currency>, CurrencySide) {
        (self.label@, self.currency, self.side)
    }
}

pub open spec fn spec_label_of(op: ArithOp) -> Seq<char> {
    match op {
        ArithOp::Add => "sum"@,
        ArithOp::Sub => "difference"@,
        ArithOp::Mul => "product"@,
        ArithOp::Div => "quotient"@,
    }
}

pub fn label_of(op: ArithOp) -> (s: &'static str)
    ensures
        s@ == spec_label_of(op),
{
    match op {
        ArithOp::Add => "sum",
        ArithOp::Sub => "difference",
        ArithOp::Mul => "product",
        ArithOp::Div => "quotient",
    }
}

/// The form of the answer to computation `c`, or `None` where `c` has nothing
/// to compute: an unknown intent, or an operation or average over no values.
pub open spec fn spec_answer_form(c: ComputationModel) -> Option<
    (Seq<char>, Option<Currency>, CurrencySide),
> {
    match c {
        ComputationModel::TotalCost { currency, side, .. } => Some(
            ("total"@, Some(currency), side),
        ),
        ComputationModel::Arith { op, values, currency, side } => if values.len() == 0 {
            None
        } else {
            Some((spec_label_of(op), currency, side))
        },
        ComputationModel::Average { values } => if values.len() == 0 {
            None
        } else {
            Some(("average"@, None, CurrencySide::Suffix))
        },
        ComputationModel::PercentOf { .. } => Some(("result"@, None, CurrencySide::Suffix)),
        ComputationModel::Single { currency, side, .. } => Some(("result"@, currency, side)),
        ComputationModel::Unknown => None,
    }
}

/// The form of the answer to `c`; see `spec_answer_form`.
pub fn answer_form(c: &Computation) -> (f: Option<AnswerForm>)
    ensures
        match f {
            Some(f) => spec_answer_form(c@) == Some(f@),
            None => spec_answer_form(c@) is None,
        },
{
    match c {
        Computation::TotalCost { currency, side, .. } => Some(
            AnswerForm { label: "total", currency: Some(*currency), side: *side },
        ),
        Computation::Arith { op, values, currency, side } => {
            if values.len() == 0 {
                None
            } else {
                Some(AnswerForm { label: label_of(*op), currency: *currency, side: *side })
            }
        },
        Computation::Average { values } => {
            if values.len() == 0 {
                None
            } else {
                Some(AnswerForm { label: "average", currency: None, side: CurrencySide::Suffix })
            }
        },
        Computation::PercentOf { .. } => Some(
            AnswerForm { label: "result", currency: None, side: CurrencySide::Suffix },
        ),
        Computation::Single { currency, side, .. } => Some(
            AnswerForm { label: "result", currency: *currency, side: *side },
        ),
        Computation::Unknown => None,
    }
}

/// The sentence `<label> is <amount>`, with the currency symbol after the
/// amount (suffix) or before it (prefix).
pub open spec fn spec_sentence(
    label: Seq<char>,
    amount: Seq<char>,
    currency: Option<Currency>,
    side: CurrencySide,
) -> Seq<char> {
    label + " is "@ + match currency {
        Some(c) => match side {
            CurrencySide::Suffix => amount + spec_symbol(c),
            CurrencySide::Prefix => spec_symbol(c) + amount,
        },
        None => amount,
    }
}

/// Renders an answer whose amount is already written out as `amount`.
pub fn sentence(label: &str, amount: &str, currency: Option<Currency>, side: CurrencySide) -> (s:
    String)
    ensures
        s@ == spec_sentence(label@, amount@, currency, side),
{
    let mut s = label.to_owned();
    s.append(" is ");
    match currency {
        Some(c) => match side {
            CurrencySide::Suffix => {
                s.append(amount);
                s.append(c.symbol());
            },
            CurrencySide::Prefix => {
                s.append(c.symbol());
                s.append(amount);
            },
        },
        None => {
            s.append(amount);
        },
    }
    assert(s@ =~= spec_sentence(label@, amount@, currency, side));
    s
}

} // verus!
