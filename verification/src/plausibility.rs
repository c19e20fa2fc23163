//! Deciding whether a sentence is math at all.
//!
//! A sentence counts as math when it has a strong anchor (an operator,
//! `times`, a currency amount, a quantity, a percent, an operation word, or a
//! totalling, averaging or percent cue), or, lacking one, when every word in
//! it is a structural math word.

use vstd::prelude::*;

use crate::extract::{Operands, OperandsModel};
use crate::lexer::{views, Token, TokenModel};
use crate::text::{lower, lower_is};
use crate::transformer::{is_nl_op_word, spec_is_nl_op_word};

verus! {

/// Words the extractor treats as structural cues (see `extract::word_cue`);
/// any other word is noise.
pub open spec fn spec_is_math_keyword(w: Seq<char>) -> bool {
    let l = lower(w);
    l == "of"@ || l == "by"@ || l == "and"@ || l == "plus"@ || l == "average"@ || l == "avg"@ || l
        == "mean"@ || l == "total"@ || l == "altogether"@ || l == "price"@ || l == "cost"@ || l
        == "sum"@ || l == "add"@
}

/// Tokens that anchor a sentence as math on their own.
pub open spec fn is_anchor_token(t: TokenModel) -> bool {
    match t {
        TokenModel::Op(_) => true,
        TokenModel::Times => true,
        TokenModel::Currency { .. } => true,
        TokenModel::Quantity(_) => true,
        TokenModel::PercentValue(_) => true,
        TokenModel::Percent => true,
        TokenModel::Word(w) => spec_is_nl_op_word(w),
        TokenModel::Number(_) => false,
    }
}

pub open spec fn spec_has_strong_anchor(t: Seq<TokenModel>, o: OperandsModel) -> bool {
    ||| o.has_total
    ||| o.has_avg
    ||| o.has_percent
    ||| exists|i: int| 0 <= i < t.len() && is_anchor_token(#[trigger] t[i])
}

pub open spec fn is_noise_token(t: TokenModel) -> bool {
    match t {
        TokenModel::Word(w) => !spec_is_math_keyword(w),
        _ => false,
    }
}

pub open spec fn spec_has_noise(t: Seq<TokenModel>) -> bool {
    exists|i: int| 0 <= i < t.len() && is_noise_token(#[trigger] t[i])
}

/// What `is_plausible_math` returns.
pub open spec fn spec_is_plausible_math(t: Seq<TokenModel>, o: OperandsModel) -> bool {
    spec_has_strong_anchor(t, o) || !spec_has_noise(t)
}

pub fn is_math_keyword(w: &str) -> (r: bool)
    ensures
        r == spec_is_math_keyword(w@),
{
    lower_is(w, "of") || lower_is(w, "by") || lower_is(w, "and") || lower_is(w, "plus")
        || lower_is(w, "average") || lower_is(w, "avg") || lower_is(w, "mean")
        || lower_is(w, "total") || lower_is(w, "altogether") || lower_is(w, "price")
        || lower_is(w, "cost") || lower_is(w, "sum") || lower_is(w, "add")
}

fn anchor_token(t: &Token) -> (r: bool)
    ensures
        r == is_anchor_token(t@),
{
    match t {
        Token::Op(_) | Token::Times | Token::Currency { .. } | Token::Quantity(_)
        | Token::PercentValue(_) | Token::Percent => true,
        Token::Word(w) => is_nl_op_word(w),
        Token::Number(_) => false,
    }
}

pub fn has_strong_anchor(tokens: &[Token], o: &Operands) -> (r: bool)
    ensures
        r == spec_has_strong_anchor(views(tokens@), o@),
{
    if o.has_total || o.has_avg || o.has_percent {
        return true;
    }
    let ghost t = views(tokens@);
    let mut i: usize = 0;
    while i < tokens.len()
        invariant
            t == views(tokens@),
            i <= tokens.len(),
            forall|j: int| 0 <= j < i ==> !is_anchor_token(#[trigger] t[j]),
        decreases tokens.len() - i,
    {
        assert(t[i as int] == tokens@[i as int]@);
        if anchor_token(&tokens[i]) {
            return true;
        }
        i = i + 1;
    }
    false
}

pub fn has_noise(tokens: &[Token]) -> (r: bool)
    ensures
        r == spec_has_noise(views(tokens@)),
{
    let ghost t = views(tokens@);
    let mut i: usize = 0;
    while i < tokens.len()
        invariant
            t == views(tokens@),
            i <= tokens.len(),
            forall|j: int| 0 <= j < i ==> !is_noise_token(#[trigger] t[j]),
        decreases tokens.len() - i,
    {
        assert(t[i as int] == tokens@[i as int]@);
        if let Token::Word(w) = tokens[i] {
            if !is_math_keyword(w) {
                return true;
            }
        }
        i = i + 1;
    }
    false
}

/// Whether the token stream looks like a genuine math command: it has a
/// strong anchor, or it has no noise word.
pub fn is_plausible_math(tokens: &[Token], o: &Operands) -> (r: bool)
    ensures
        r == spec_is_plausible_math(views(tokens@), o@),
{
    if has_strong_anchor(tokens, o) {
        return true;
    }
    !has_noise(tokens)
}

} // verus!
