//! Intent resolution: decides which computation the operands ask for.

use vstd::prelude::*;

use crate::extract::{num_views, price_views, Operands, OperandsModel};
use crate::lexer::Num;
use crate::{ArithOp, Currency, CurrencySide};

verus! {

#[derive(Debug, Clone, PartialEq)]
pub enum Computation<'a> {
    TotalCost { items: Vec<(Num<'a>, Num<'a>)>, currency: Currency, side: CurrencySide },
    Arith { op: ArithOp, values: Vec<Num<'a>>, currency: Option<Currency>, side: CurrencySide },
    Average { values: Vec<Num<'a>> },
    PercentOf { rate: Num<'a>, base: Num<'a> },
    Single { value: Num<'a>, currency: Option<Currency>, side: CurrencySide },
    Unknown,
}

/// A computation with every amount taken as its literal text.
pub enum ComputationModel {
    TotalCost { items: Seq<(Seq<char>, Seq<char>)>, currency: Currency, side: CurrencySide },
    Arith { op: ArithOp, values: Seq<Seq<char>>, currency: Option<Currency>, side: CurrencySide },
    Average { values: Seq<Seq<char>> },
    PercentOf { rate: Seq<char>, base: Seq<char> },
    Single { value: Seq<char>, currency: Option<Currency>, side: CurrencySide },
    Unknown,
}

pub open spec fn item_views<'a>(items: Seq<(Num<'a>, Num<'a>)>) -> Seq<(Seq<char>, Seq<char>)> {
    items.map_values(|it: (Num<'a>, Num<'a>)| (it.0@, it.1@))
}

impl<'a> View for Computation<'a> {
    type V = ComputationModel;

    open spec fn view(&self) -> ComputationModel {
        match self {
            Computation::TotalCost { items, currency, side } => ComputationModel::TotalCost {
                items: item_views(items@),
                currency: *currency,
                side: *side,
            },
            Computation::Arith { op, values, currency, side } => ComputationModel::Arith {
                op: *op,
                values: num_views(values@),
                currency: *currency,
                side: *side,
            },
            Computation::Average { values } => ComputationModel::Average {
                values: num_views(values@),
            },
            Computation::PercentOf { rate, base } => ComputationModel::PercentOf {
                rate: rate@,
                base: base@,
            },
            Computation::Single { value, currency, side } => ComputationModel::Single {
                value: value@,
                currency: *currency,
                side: *side,
            },
            Computation::Unknown => ComputationModel::Unknown,
        }
    }
}

/// The amounts of the prices.
pub open spec fn price_values(ps: Seq<(Seq<char>, Currency)>) -> Seq<Seq<char>> {
    ps.map_values(|p: (Seq<char>, Currency)| p.0)
}

/// The plain numbers, or, when there are none, the price amounts.
pub open spec fn spec_value_list(o: OperandsModel) -> Seq<Seq<char>> {
    if o.numbers.len() > 0 {
        o.numbers
    } else {
        price_values(o.prices)
    }
}

/// Every quantity paired with every price, quantities in the outer order.
pub open spec fn all_pairs(q: Seq<Seq<char>>, p: Seq<Seq<char>>) -> Seq<(Seq<char>, Seq<char>)>
    decreases q.len(),
{
    if q.len() == 0 {
        seq![]
    } else {
        all_pairs(q.drop_last(), p) + p.map_values(|x: Seq<char>| (q.last(), x))
    }
}

/// The (quantity, price) items of a total cost: quantities and prices paired
/// one to one when their counts agree, and every quantity with every price
/// otherwise.
pub open spec fn cost_items(q: Seq<Seq<char>>, p: Seq<Seq<char>>) -> Seq<(Seq<char>, Seq<char>)> {
    if q.len() == p.len() {
        Seq::new(q.len(), |i: int| (q[i], p[i]))
    } else {
        all_pairs(q, p)
    }
}

pub open spec fn spec_try_percent(o: OperandsModel) -> Option<ComputationModel> {
    if o.percents.len() > 0 && o.has_of && o.numbers.len() > 0 {
        Some(ComputationModel::PercentOf { rate: o.percents[0], base: o.numbers[0] })
    } else {
        None
    }
}

pub open spec fn spec_total_cost(o: OperandsModel) -> ComputationModel {
    ComputationModel::TotalCost {
        items: cost_items(o.quantities, price_values(o.prices)),
        currency: match o.currency {
            Some(c) => c,
            None => Currency::Dollar,
        },
        side: o.side,
    }
}

/// The computation that operands `o` ask for, by the first rule that applies:
/// a percent of a number; an average of the numbers; a total cost of
/// quantities at prices (with no operator); the first operator over the
/// values; a sum where a totalling or summing word joins two or more values;
/// a lone value; otherwise nothing.
pub open spec fn spec_resolve(o: OperandsModel) -> ComputationModel {
    let vl = spec_value_list(o);
    if spec_try_percent(o) is Some {
        spec_try_percent(o)->0
    } else if o.has_avg && o.numbers.len() > 0 {
        ComputationModel::Average { values: o.numbers }
    } else if o.quantities.len() > 0 && o.prices.len() > 0 && o.ops.len() == 0 {
        spec_total_cost(o)
    } else if o.ops.len() > 0 {
        ComputationModel::Arith { op: o.ops[0], values: vl, currency: o.currency, side: o.side }
    } else if (o.has_total || o.has_sum) && vl.len() >= 2 {
        ComputationModel::Arith { op: ArithOp::Add, values: vl, currency: o.currency, side: o.side }
    } else if vl.len() == 1 {
        ComputationModel::Single { value: vl[0], currency: o.currency, side: o.side }
    } else {
        ComputationModel::Unknown
    }
}

fn value_list<'a>(o: &Operands<'a>) -> (v: Vec<Num<'a>>)
    ensures
        num_views(v@) == spec_value_list(o@),
{
    let mut v: Vec<Num<'a>> = o.numbers.clone();
    assert(v@ == o.numbers@);
    if v.len() == 0 {
        let mut k: usize = 0;
        while k < o.prices.len()
            invariant
                k <= o.prices.len(),
                num_views(v@) == price_values(price_views(o.prices@)).take(k as int),
            decreases o.prices.len() - k,
        {
            let x = o.prices[k].0;
            let ghost old_v = v@;
            v.push(x);
            assert(num_views(v@) =~= num_views(old_v).push(x@));
            assert(price_values(price_views(o.prices@))[k as int] == x@);
            assert(num_views(v@) =~= price_values(price_views(o.prices@)).take(k + 1));
            k = k + 1;
        }
        assert(price_values(price_views(o.prices@)).take(o.prices.len() as int) =~= price_values(
            price_views(o.prices@),
        ));
    }
    v
}

fn try_percent<'a>(o: &Operands<'a>) -> (c: Option<Computation<'a>>)
    ensures
        match c {
            Some(c) => spec_try_percent(o@) == Some(c@),
            None => spec_try_percent(o@) is None,
        },
{
    if o.percents.len() == 0 || !o.has_of || o.numbers.len() == 0 {
        return None;
    }
    Some(Computation::PercentOf { rate: o.percents[0], base: o.numbers[0] })
}

fn total_cost<'a>(o: &Operands<'a>) -> (c: Computation<'a>)
    ensures
        c@ == spec_total_cost(o@),
{
    let ghost q = o@.quantities;
    let ghost p = price_values(o@.prices);
    let mut items: Vec<(Num<'a>, Num<'a>)> = Vec::new();
    if o.quantities.len() == o.prices.len() {
        let mut i: usize = 0;
        while i < o.quantities.len()
            invariant
                q == o@.quantities,
                p == price_values(o@.prices),
                q.len() == p.len(),
                i <= q.len(),
                item_views(items@) == Seq::new(q.len(), |k: int| (q[k], p[k])).take(i as int),
            decreases q.len() - i,
        {
            let it = (o.quantities[i], o.prices[i].0);
            let ghost old_items = items@;
            items.push(it);
            assert(item_views(items@) =~= item_views(old_items).push((it.0@, it.1@)));
            assert(q[i as int] == it.0@ && p[i as int] == it.1@);
            assert(item_views(items@) =~= Seq::new(q.len(), |k: int| (q[k], p[k])).take(i + 1));
            i = i + 1;
        }
        assert(Seq::new(q.len(), |k: int| (q[k], p[k])).take(q.len() as int) =~= Seq::new(
            q.len(),
            |k: int| (q[k], p[k]),
        ));
    } else {
        let mut i: usize = 0;
        while i < o.quantities.len()
            invariant
                q == o@.quantities,
                p == price_values(o@.prices),
                i <= q.len(),
                item_views(items@) == all_pairs(q.take(i as int), p),
            decreases q.len() - i,
        {
            let mut j: usize = 0;
            while j < o.prices.len()
                invariant
                    q == o@.quantities,
                    p == price_values(o@.prices),
                    i < q.len(),
                    j <= p.len(),
                    item_views(items@) == all_pairs(q.take(i as int), p) + p.take(j as int).map_values(
                        |x: Seq<char>| (q[i as int], x),
                    ),
                decreases p.len() - j,
            {
                let it = (o.quantities[i], o.prices[j].0);
                let ghost old_items = items@;
                items.push(it);
                assert(item_views(items@) =~= item_views(old_items).push((it.0@, it.1@)));
                assert(q[i as int] == it.0@ && p[j as int] == it.1@);
                assert(item_views(items@) =~= all_pairs(q.take(i as int), p) + p.take(
                    j + 1,
                ).map_values(|x: Seq<char>| (q[i as int], x)));
                j = j + 1;
            }
            assert(q.take(i + 1).drop_last() =~= q.take(i as int));
            assert(p.take(p.len() as int) =~= p);
            i = i + 1;
        }
        assert(q.take(q.len() as int) =~= q);
    }
    let currency = match o.currency {
        Some(c) => c,
        None => Currency::Dollar,
    };
    Computation::TotalCost { items, currency, side: o.side }
}

/// Decides the computation that `o` asks for; see `spec_resolve`.
pub fn resolve<'a>(o: &Operands<'a>) -> (c: Computation<'a>)
    ensures
        c@ == spec_resolve(o@),
{
    if let Some(c) = try_percent(o) {
        return c;
    }
    if o.has_avg && o.numbers.len() > 0 {
        return Computation::Average { values: o.numbers.clone() };
    }
    if o.quantities.len() > 0 && o.prices.len() > 0 && o.ops.len() == 0 {
        return total_cost(o);
    }
    if o.ops.len() > 0 {
        return Computation::Arith {
            op: o.ops[0],
            values: value_list(o),
            currency: o.currency,
            side: o.side,
        };
    }
    let values = value_list(o);
    if (o.has_total || o.has_sum) && values.len() >= 2 {
        return Computation::Arith { op: ArithOp::Add, values, currency: o.currency, side: o.side };
    }
    if values.len() == 1 {
        return Computation::Single { value: values[0], currency: o.currency, side: o.side };
    }
    Computation::Unknown
}

} // verus!
