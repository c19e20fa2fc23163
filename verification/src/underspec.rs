//! Evidence for each kind of computation: how strongly the operands point at
//! a total cost, an arithmetic operation, an average, a percent, or a lone
//! value. The weights are whole-number evidence counts; an input whose
//! evidence is spread over several kinds is ambiguous.
//!
//! Only the evidence is computed here. Turning it into a normalised-entropy
//! score and deciding from that score, against floating-point thresholds,
//! whether an input needs clarification belongs to a separate scoring crate
//! that this library does not depend on; `Calculator` therefore never refuses
//! an input as underspecified, and no error variant for that exists.

use vstd::prelude::*;

use crate::extract::{Operands, OperandsModel};

verus! {

/// One relevance slot per computation kind, in this fixed order.
pub const INTENT_SLOTS: usize = 5;

pub const SLOT_TOTAL_COST: usize = 0;

pub const SLOT_ARITH: usize = 1;

pub const SLOT_AVERAGE: usize = 2;

pub const SLOT_PERCENT: usize = 3;

pub const SLOT_SINGLE: usize = 4;

/// Weight of each explicit operator, so that an operator outweighs other cues.
pub const OP_EVIDENCE: u128 = 2;

/// How many values the operands carry: the plain numbers, or else the prices.
pub open spec fn spec_value_count(o: OperandsModel) -> nat {
    if o.numbers.len() > 0 {
        o.numbers.len()
    } else {
        o.prices.len()
    }
}

pub open spec fn spec_total_cost_weight(o: OperandsModel) -> nat {
    if o.ops.len() == 0 && o.quantities.len() > 0 && o.prices.len() > 0 {
        if o.quantities.len() <= o.prices.len() {
            o.quantities.len()
        } else {
            o.prices.len()
        }
    } else {
        0
    }
}

/// Every explicit operator counts twice; a totalling or summing word over two
/// or more values counts once, unless an average was asked for.
pub open spec fn spec_arith_weight(o: OperandsModel, n_values: nat) -> nat {
    o.ops.len() * 2 + if !o.has_avg && (o.has_total || o.has_sum) && n_values >= 2 {
        1nat
    } else {
        0nat
    }
}

pub open spec fn spec_average_weight(o: OperandsModel, n_values: nat) -> nat {
    if o.has_avg && n_values > 0 {
        n_values
    } else {
        0
    }
}

pub open spec fn spec_percent_weight(o: OperandsModel) -> nat {
    if o.percents.len() > 0 && o.has_of && o.numbers.len() > 0 {
        o.percents.len() * o.numbers.len()
    } else {
        0
    }
}

/// A lone value counts only when nothing relates it to another operand.
pub open spec fn spec_single_weight(o: OperandsModel, n_values: nat) -> nat {
    if n_values == 1 && o.ops.len() == 0 && o.quantities.len() == 0 && o.percents.len() == 0
        && !o.has_of && !o.has_avg {
        1
    } else {
        0
    }
}

/// The evidence for `[total cost, arithmetic, average, percent, single]`.
pub open spec fn spec_relevance(o: OperandsModel) -> Seq<int> {
    let n = spec_value_count(o);
    seq![
        spec_total_cost_weight(o) as int,
        spec_arith_weight(o, n) as int,
        spec_average_weight(o, n) as int,
        spec_percent_weight(o) as int,
        spec_single_weight(o, n) as int,
    ]
}

fn value_count(o: &Operands) -> (n: usize)
    ensures
        n == spec_value_count(o@),
{
    if o.numbers.len() > 0 {
        o.numbers.len()
    } else {
        o.prices.len()
    }
}

fn total_cost_weight(o: &Operands) -> (w: u128)
    ensures
        w == spec_total_cost_weight(o@),
{
    if o.ops.len() == 0 && o.quantities.len() > 0 && o.prices.len() > 0 {
        if o.quantities.len() <= o.prices.len() {
            o.quantities.len() as u128
        } else {
            o.prices.len() as u128
        }
    } else {
        0
    }
}

fn arith_weight(o: &Operands, n_values: usize) -> (w: u128)
    ensures
        w == spec_arith_weight(o@, n_values as nat),
{
    let from_ops: u128 = (o.ops.len() as u128) * OP_EVIDENCE;
    let from_keywords: u128 = if !o.has_avg && (o.has_total || o.has_sum) && n_values >= 2 {
        1
    } else {
        0
    };
    from_ops + from_keywords
}

fn average_weight(o: &Operands, n_values: usize) -> (w: u128)
    ensures
        w == spec_average_weight(o@, n_values as nat),
{
    if o.has_avg && n_values > 0 {
        n_values as u128
    } else {
        0
    }
}

fn percent_weight(o: &Operands) -> (w: u128)
    ensures
        w == spec_percent_weight(o@),
{
    if o.percents.len() > 0 && o.has_of && o.numbers.len() > 0 {
        let a: u128 = o.percents.len() as u128;
        let b: u128 = o.numbers.len() as u128;
        assert(a * b <= u128::MAX) by (nonlinear_arith)
            requires
                a <= u64::MAX,
                b <= u64::MAX,
        ;
        a * b
    } else {
        0
    }
}

fn single_weight(o: &Operands, n_values: usize) -> (w: u128)
    ensures
        w == spec_single_weight(o@, n_values as nat),
{
    if n_values == 1 && o.ops.len() == 0 && o.quantities.len() == 0 && o.percents.len() == 0
        && !o.has_of && !o.has_avg {
        1
    } else {
        0
    }
}

/// The evidence for each computation kind, in slot order; see
/// `spec_relevance`.
pub fn relevance(o: &Operands) -> (r: [u128; INTENT_SLOTS])
    ensures
        r@.map_values(|w: u128| w as int) == spec_relevance(o@),
{
    let n_values = value_count(o);
    let r: [u128; INTENT_SLOTS] = [
        total_cost_weight(o),
        arith_weight(o, n_values),
        average_weight(o, n_values),
        percent_weight(o),
        single_weight(o, n_values),
    ];
    assert(r@.map_values(|w: u128| w as int) =~= spec_relevance(o@));
    r
}

} // verus!
