//! The discrete front end of the analytical transformer: it reads an input of
//! the form `a <op> b` over single digits (operators as symbols, as words, or
//! as natural-language operation words) into the `(a, op, b)` triple that the
//! forward pass evaluates, and gives the exact integer each triple stands for.
//! The forward pass itself runs in floating point outside this library.

use vstd::prelude::*;

use crate::lexer::{all_digits, views, Num, Token, TokenModel};
use crate::text::{is_digit, is_digit_char, lower, lower_is};
use crate::ArithOp;

verus! {

/// The operator slot of the transformer.
#[derive(Clone, Copy, Debug, PartialEq, Eq, Structural)]
pub enum OpIdx {
    Add,
    Sub,
    Mul,
}

/// The operation a natural-language word stands for, with the implicit second
/// operand of a unary word: `buy get gain receive` add, `eat lose give take
/// spend drop` subtract, `double` multiplies by 2 and `triple` by 3.
pub open spec fn spec_nl_op(w: Seq<char>) -> Option<(OpIdx, Option<nat>)> {
    let l = lower(w);
    if l == "buy"@ || l == "get"@ || l == "gain"@ || l == "receive"@ {
        Some((OpIdx::Add, None))
    } else if l == "eat"@ || l == "lose"@ || l == "give"@ || l == "take"@ || l == "spend"@ || l
        == "drop"@ {
        Some((OpIdx::Sub, None))
    } else if l == "double"@ {
        Some((OpIdx::Mul, Some(2)))
    } else if l == "triple"@ {
        Some((OpIdx::Mul, Some(3)))
    } else {
        None
    }
}

pub open spec fn spec_is_nl_op_word(w: Seq<char>) -> bool {
    spec_nl_op(w) is Some
}

fn nl_op(w: &str) -> (r: Option<(OpIdx, Option<usize>)>)
    ensures
        match r {
            Some((op, k)) => spec_nl_op(w@) == Some(
                (op, match k {
                    Some(k) => Some(k as nat),
                    None => None,
                }),
            ),
            None => spec_nl_op(w@) is None,
        },
{
    if lower_is(w, "buy") || lower_is(w, "get") || lower_is(w, "gain") || lower_is(w, "receive") {
        Some((OpIdx::Add, None))
    } else if lower_is(w, "eat") || lower_is(w, "lose") || lower_is(w, "give") || lower_is(w, "take")
        || lower_is(w, "spend") || lower_is(w, "drop") {
        Some((OpIdx::Sub, None))
    } else if lower_is(w, "double") {
        Some((OpIdx::Mul, Some(2)))
    } else if lower_is(w, "triple") {
        Some((OpIdx::Mul, Some(3)))
    } else {
        None
    }
}

/// Whether `w` is one of the natural-language operation words.
pub fn is_nl_op_word(w: &str) -> (r: bool)
    ensures
        r == spec_is_nl_op_word(w@),
{
    nl_op(w).is_some()
}

/// The operation a token names, if any (division is not one of them).
pub open spec fn op_of(t: TokenModel) -> Option<(OpIdx, Option<nat>)> {
    match t {
        TokenModel::Op(ArithOp::Add) => Some((OpIdx::Add, None)),
        TokenModel::Op(ArithOp::Sub) => Some((OpIdx::Sub, None)),
        TokenModel::Op(ArithOp::Mul) => Some((OpIdx::Mul, None)),
        TokenModel::Times => Some((OpIdx::Mul, None)),
        TokenModel::Word(w) => spec_nl_op(w),
        _ => None,
    }
}

/// The first operation named in `t`.
pub open spec fn first_op(t: Seq<TokenModel>) -> Option<(OpIdx, Option<nat>)>
    decreases t.len(),
{
    if t.len() == 0 {
        None
    } else {
        match first_op(t.drop_last()) {
            Some(x) => Some(x),
            None => op_of(t.last()),
        }
    }
}

/// The amounts of the plain numbers and quantities in `t`, in order.
pub open spec fn operand_texts(t: Seq<TokenModel>) -> Seq<Seq<char>>
    decreases t.len(),
{
    if t.len() == 0 {
        seq![]
    } else {
        operand_texts(t.drop_last()) + match t.last() {
            TokenModel::Number(n) => seq![n],
            TokenModel::Quantity(n) => seq![n],
            _ => seq![],
        }
    }
}

pub open spec fn has_div(t: Seq<TokenModel>) -> bool {
    exists|i: int| 0 <= i < t.len() && (#[trigger] t[i]) == TokenModel::Op(ArithOp::Div)
}

/// Position of the first `.` in `s`, or its length.
pub open spec fn point_pos(s: Seq<char>) -> nat
    decreases s.len(),
{
    if s.len() == 0 || s[0] == '.' {
        0
    } else {
        1 + point_pos(s.drop_first())
    }
}

pub open spec fn digits_value(s: Seq<char>) -> int
    decreases s.len(),
{
    if s.len() == 0 {
        0
    } else {
        digits_value(s.drop_last()) * 10 + (s.last() as int - '0' as int)
    }
}

/// The digits after the first `.` of `s` (none if there is no `.`).
pub open spec fn frac_part(s: Seq<char>) -> Seq<char> {
    if point_pos(s) < s.len() {
        s.skip(point_pos(s) as int + 1)
    } else {
        seq![]
    }
}

pub open spec fn all_zeros(s: Seq<char>) -> bool {
    forall|i: int| 0 <= i < s.len() ==> #[trigger] s[i] == '0'
}

/// The digit 0..=9 that a decimal literal denotes, if it denotes one: its whole
/// part is at most 9 and its fraction is all zeros.
pub open spec fn digit_of(s: Seq<char>) -> Option<nat> {
    let whole = s.take(point_pos(s) as int);
    if whole.len() > 0 && all_digits(whole) && all_zeros(frac_part(s)) && digits_value(whole) <= 9 {
        Some(digits_value(whole) as nat)
    } else {
        None
    }
}

/// What `parse_seq` returns for tokens `t`: no triple when a division occurs;
/// otherwise the first operation with two single-digit operands (or, for a
/// unary word, one operand and the implicit one); otherwise none.
pub open spec fn spec_parse_seq(t: Seq<TokenModel>) -> Option<(usize, OpIdx, usize)> {
    let ns = operand_texts(t);
    if has_div(t) {
        None
    } else {
        match first_op(t) {
            None => None,
            Some((op, None)) => if ns.len() == 2 && digit_of(ns[0]) is Some && digit_of(ns[1]) is Some {
                Some((digit_of(ns[0])->0 as usize, op, digit_of(ns[1])->0 as usize))
            } else {
                None
            },
            Some((op, Some(k))) => if ns.len() == 1 && digit_of(ns[0]) is Some {
                Some((digit_of(ns[0])->0 as usize, op, k as usize))
            } else {
                None
            },
        }
    }
}

proof fn lemma_point_pos(s: Seq<char>, p: int)
    requires
        0 <= p <= s.len(),
        forall|k: int| 0 <= k < p ==> #[trigger] s[k] != '.',
        p == s.len() || s[p] == '.',
    ensures
        point_pos(s) == p,
    decreases p,
{
    if p > 0 {
        assert forall|k: int| 0 <= k < p - 1 implies #[trigger] s.drop_first()[k] != '.' by {
            assert(s.drop_first()[k] == s[k + 1]);
        }
        lemma_point_pos(s.drop_first(), p - 1);
    }
}

proof fn lemma_digits_value_grows(s: Seq<char>, k: int)
    requires
        all_digits(s),
        0 <= k <= s.len(),
    ensures
        digits_value(s) >= digits_value(s.take(k)) >= 0,
    decreases s.len(),
{
    if k == s.len() {
        assert(s.take(k) =~= s);
        if s.len() > 0 {
            lemma_digits_value_grows(s.drop_last(), 0);
        }
    } else {
        assert(all_digits(s.drop_last())) by {
            assert forall|i: int| 0 <= i < s.drop_last().len() implies is_digit(
                #[trigger] s.drop_last()[i],
            ) by {
                assert(s.drop_last()[i] == s[i]);
            }
        }
        lemma_digits_value_grows(s.drop_last(), k);
        assert(s.drop_last().take(k) =~= s.take(k));
        assert(is_digit(s[s.len() - 1]));
    }
}

/// A digit read from a literal is at most 9.
pub proof fn lemma_digit_of_small(s: Seq<char>)
    ensures
        digit_of(s) matches Some(d) ==> d <= 9,
{
    let whole = s.take(point_pos(s) as int);
    if all_digits(whole) {
        lemma_digits_value_grows(whole, 0);
    }
}

/// The implicit operand of an operation word is 2 or 3.
pub proof fn lemma_first_op_implicit(t: Seq<TokenModel>)
    ensures
        first_op(t) matches Some((_, Some(k))) ==> k == 2 || k == 3,
    decreases t.len(),
{
    if t.len() > 0 {
        lemma_first_op_implicit(t.drop_last());
    }
}

/// The digit that `n` denotes, if it is a whole number from 0 to 9.
pub fn as_digit(n: Num) -> (r: Option<usize>)
    ensures
        match r {
            Some(d) => digit_of(n@) == Some(d as nat),
            None => digit_of(n@) is None,
        },
{
    let cs = crate::text::chars_of(n.text);
    let len = cs.len();
    let ghost s = n@;
    let mut p: usize = 0;
    while p < len && cs[p] != '.'
        invariant
            cs@ == s,
            len == s.len(),
            p <= len,
            forall|k: int| 0 <= k < p ==> #[trigger] s[k] != '.',
        decreases len - p,
    {
        p = p + 1;
    }
    proof {
        lemma_point_pos(s, p as int);
    }
    let ghost whole = s.take(p as int);
    if p == 0 {
        return None;
    }
    let mut v: usize = 0;
    let mut i: usize = 0;
    while i < p
        invariant
            cs@ == s,
            len == s.len(),
            p <= len,
            whole == s.take(p as int),
            s == n@,
            point_pos(s) == p,
            i <= p,
            all_digits(whole.take(i as int)),
            v == digits_value(whole.take(i as int)),
            v <= 9,
        decreases p - i,
    {
        let c = cs[i];
        assert(whole[i as int] == c);
        if !is_digit_char(c) {
            assert(!all_digits(whole));
            assert(digit_of(s) is None);
            return None;
        }
        let d: u32 = (c as u32) - ('0' as u32);
        let nv: usize = v * 10 + (d as usize);
        assert(whole.take(i + 1).drop_last() =~= whole.take(i as int));
        assert(all_digits(whole.take(i + 1))) by {
            assert forall|k: int| 0 <= k < i + 1 implies is_digit(#[trigger] whole.take(i + 1)[k]) by {
                if k < i {
                    assert(whole.take(i + 1)[k] == whole.take(i as int)[k]);
                }
            }
        }
        assert(nv == digits_value(whole.take(i + 1)));
        if nv > 9 {
            proof {
                if all_digits(whole) {
                    lemma_digits_value_grows(whole, i + 1);
                }
            }
            assert(digit_of(s) is None);
            return None;
        }
        v = nv;
        i = i + 1;
    }
    assert(whole.take(p as int) =~= whole);
    if p < len {
        let ghost frac = s.skip(p + 1);
        assert(frac == frac_part(s));
        let mut k: usize = p + 1;
        while k < len
            invariant
                cs@ == s,
                len == s.len(),
                p < len,
                frac == s.skip(p + 1),
                frac == frac_part(s),
                s == n@,
                whole.len() > 0,
                p + 1 <= k <= len,
                forall|j: int| p + 1 <= j < k ==> #[trigger] s[j] == '0',
            decreases len - k,
        {
            if cs[k] != '0' {
                assert(frac[k - p - 1] == s[k as int]);
                assert(!all_zeros(frac));
                assert(digit_of(s) is None);
                return None;
            }
            k = k + 1;
        }
        assert forall|j: int| 0 <= j < frac.len() implies #[trigger] frac[j] == '0' by {
            assert(frac[j] == s[p + 1 + j]);
        }
    }
    assert(all_zeros(frac_part(s)));
    Some(v)
}

/// The exact value of `a op b` for operator slot `op` (0 add, 1 subtract,
/// anything else multiply).
pub open spec fn spec_result_of(op: usize, a: usize, b: usize) -> int {
    if op == 0 {
        a + b
    } else if op == 1 {
        a - b
    } else {
        a * b
    }
}

/// The integer that the readout emits for `(op, a, b)`.
pub fn result_of(op: usize, a: usize, b: usize) -> (r: i128)
    requires
        op == 0 ==> a + b <= usize::MAX,
        op >= 2 ==> a * b <= usize::MAX,
    ensures
        r == spec_result_of(op, a, b),
{
    if op == 0 {
        (a + b) as i128
    } else if op == 1 {
        (a as i128) - (b as i128)
    } else {
        (a * b) as i128
    }
}

fn op_token(t: &Token) -> (r: Option<(OpIdx, Option<usize>)>)
    ensures
        match r {
            Some((op, k)) => op_of(t@) == Some(
                (op, match k {
                    Some(k) => Some(k as nat),
                    None => None,
                }),
            ),
            None => op_of(t@) is None,
        },
{
    match t {
        Token::Op(ArithOp::Add) => Some((OpIdx::Add, None)),
        Token::Op(ArithOp::Sub) => Some((OpIdx::Sub, None)),
        Token::Op(ArithOp::Mul) => Some((OpIdx::Mul, None)),
        Token::Times => Some((OpIdx::Mul, None)),
        Token::Word(w) => nl_op(w),
        _ => None,
    }
}

/// Reads `tokens` into the `(a, op, b)` triple of single digits that the
/// transformer evaluates; see `spec_parse_seq`.
pub fn parse_seq(tokens: &[Token]) -> (r: Option<(usize, OpIdx, usize)>)
    ensures
        r == spec_parse_seq(views(tokens@)),
{
    let ghost t = views(tokens@);
    let mut nums: Vec<Num> = Vec::new();
    let mut op: Option<(OpIdx, Option<usize>)> = None;
    let mut i: usize = 0;
    while i < tokens.len()
        invariant
            t == views(tokens@),
            i <= tokens.len(),
            crate::extract::num_views(nums@) == operand_texts(t.take(i as int)),
            !has_div(t.take(i as int)),
            match op {
                Some((o, k)) => first_op(t.take(i as int)) == Some(
                    (o, match k {
                        Some(k) => Some(k as nat),
                        None => None,
                    }),
                ),
                None => first_op(t.take(i as int)) is None,
            },
        decreases tokens.len() - i,
    {
        let ghost pre = t.take(i as int);
        let ghost cur = t.take(i + 1);
        assert(cur.drop_last() =~= pre);
        assert(cur.last() == tokens@[i as int]@);
        let ghost old_nums = nums@;
        match tokens[i] {
            Token::Number(n) => {
                nums.push(n);
                assert(crate::extract::num_views(nums@) =~= crate::extract::num_views(old_nums).push(n@));
            },
            Token::Quantity(n) => {
                nums.push(n);
                assert(crate::extract::num_views(nums@) =~= crate::extract::num_views(old_nums).push(n@));
            },
            Token::Op(ArithOp::Div) => {
                assert(t[i as int] == TokenModel::Op(ArithOp::Div));
                return None;
            },
            _ => {
                assert(operand_texts(cur) =~= operand_texts(pre));
            },
        }
        if op.is_none() {
            op = op_token(&tokens[i]);
        }
        assert(!has_div(cur)) by {
            if has_div(cur) {
                let j = choose|j: int| 0 <= j < cur.len() && (#[trigger] cur[j]) == TokenModel::Op(ArithOp::Div);
                if j < i {
                    assert(pre[j] == cur[j]);
                }
            }
        }
        i = i + 1;
    }
    assert(t.take(tokens.len() as int) =~= t);
    let ghost ns = operand_texts(t);
    match op {
        None => None,
        Some((o, None)) => {
            if nums.len() != 2 {
                return None;
            }
            assert(nums@[0]@ == ns[0] && nums@[1]@ == ns[1]);
            match (as_digit(nums[0]), as_digit(nums[1])) {
                (Some(a), Some(b)) => Some((a, o, b)),
                _ => None,
            }
        },
        Some((o, Some(k))) => {
            if nums.len() != 1 {
                return None;
            }
            assert(nums@[0]@ == ns[0]);
            match as_digit(nums[0]) {
                Some(a) => Some((a, o, k)),
                None => None,
            }
        },
    }
}

} // verus!
