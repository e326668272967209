//! Which subexpressions an expression evaluates before it does anything else, and in what
//! order; which routine a function call hands them to; how large an expression is.
use vstd::prelude::*;

use crate::ast::{DataType, DateTimeField, Expr, Function, TrimWhereField};

verus! {

/// The routine that computes the result of a function call from its operands.
#[derive(Clone, Copy, Debug, PartialEq, Eq)]
pub enum Routine {
    Concat,
    ConcatWs,
    IfNull,
    Lower,
    Upper,
    LeftOrRight,
    LpadOrRpad,
    Trim(Option<TrimWhereField>),
    Ltrim,
    Rtrim,
    Reverse,
    Repeat,
    Substr,
    Ascii,
    Chr,
    Abs,
    Sign,
    Sqrt,
    Power,
    Ceil,
    Rand,
    Round,
    Floor,
    Radians,
    Degrees,
    Pi,
    Exp,
    Log,
    Ln,
    Log2,
    Log10,
    Sin,
    Cos,
    Tan,
    Asin,
    Acos,
    Atan,
    Div,
    Modulo,
    Gcd,
    Lcm,
    Unwrap,
    GenerateUuid,
    Format,
    ToDate,
    ToTimestamp,
    ToTime,
    Position,
    FindIdx,
    Cast(DataType),
    Extract(DateTimeField),
    Append,
}

/// One operand.
pub open spec fn one(a: Expr) -> Seq<Option<Expr>> {
    seq![Some(a)]
}

/// Two operands.
pub open spec fn two(a: Expr, b: Expr) -> Seq<Option<Expr>> {
    seq![Some(a), Some(b)]
}

/// An operand and one that may be missing.
pub open spec fn one_or_two(a: Expr, b: Option<Expr>) -> Seq<Option<Expr>> {
    seq![Some(a), b]
}

/// Three operands.
pub open spec fn three(a: Expr, b: Expr, c: Expr) -> Seq<Option<Expr>> {
    seq![Some(a), Some(b), Some(c)]
}

/// Two operands and one that may be missing.
pub open spec fn two_or_three(a: Expr, b: Expr, c: Option<Expr>) -> Seq<Option<Expr>> {
    seq![Some(a), Some(b), c]
}

/// As many operands as the list holds.
pub open spec fn listed(list: Seq<Expr>) -> Seq<Option<Expr>> {
    list.map_values(|e: Expr| Some(e))
}

/// The operand of a `CASE`, where it has one.
pub open spec fn unboxed(e: Option<Box<Expr>>) -> Option<Expr> {
    match e {
        Some(e) => Some(*e),
        None => None,
    }
}

/// The operands of a function call, in the order in which they are evaluated. An operand that
/// the call may leave out has its place all the same. A custom function's arguments are not
/// among them: the function is looked up before they are evaluated.
pub open spec fn function_operands(f: Function) -> Seq<Option<Expr>> {
    match f {
        Function::Custom { .. } | Function::Pi() | Function::GenerateUuid() | Function::Now() =>
            Seq::empty(),
        Function::Concat(exprs) => listed(exprs@),
        Function::ConcatWs { separator, exprs } => one(separator) + listed(exprs@),
        Function::IfNull { expr, then } => two(expr, then),
        Function::Left { expr, size } | Function::Right { expr, size } => two(expr, size),
        Function::Lpad { expr, size, fill } | Function::Rpad { expr, size, fill } =>
            two_or_three(expr, size, fill),
        Function::Trim { expr, filter_chars, .. } => one_or_two(expr, filter_chars),
        Function::Ltrim { expr, chars } | Function::Rtrim { expr, chars } =>
            one_or_two(expr, chars),
        Function::Repeat { expr, num } => two(expr, num),
        Function::Substr { expr, start, count } => two_or_three(expr, start, count),
        Function::Power { expr, power } => two(expr, power),
        Function::Rand(seed) => seq![seed],
        Function::Log { antilog, base } => two(antilog, base),
        Function::Div { dividend, divisor } | Function::Mod { dividend, divisor } =>
            two(dividend, divisor),
        Function::Gcd { left, right } | Function::Lcm { left, right } => two(left, right),
        Function::Unwrap { expr, selector } => two(expr, selector),
        Function::Format { expr, format } | Function::ToDate { expr, format }
        | Function::ToTimestamp { expr, format } | Function::ToTime { expr, format } =>
            two(expr, format),
        Function::Position { from_expr, sub_expr } => two(from_expr, sub_expr),
        Function::FindIdx { from_expr, sub_expr, start } =>
            two_or_three(from_expr, sub_expr, start),
        Function::Append { expr, value } => two(expr, value),
        Function::Cast { expr, .. } | Function::Extract { expr, .. } => one(expr),
        Function::Lower(e) | Function::Upper(e) | Function::Reverse(e) | Function::Ascii(e)
        | Function::Chr(e) | Function::Abs(e) | Function::Sign(e) | Function::Sqrt(e)
        | Function::Ceil(e) | Function::Round(e) | Function::Floor(e) | Function::Radians(e)
        | Function::Degrees(e) | Function::Exp(e) | Function::Ln(e) | Function::Log2(e)
        | Function::Log10(e) | Function::Sin(e) | Function::Cos(e) | Function::Tan(e)
        | Function::Asin(e) | Function::Acos(e) | Function::Atan(e) => one(e),
    }
}

/// The subexpressions that an expression evaluates before it does anything else, in the order
/// in which they are evaluated.
pub open spec fn operands(e: Expr) -> Seq<Option<Expr>> {
    match e {
        Expr::Nested(expr) | Expr::IsNull(expr) | Expr::IsNotNull(expr) => one(*expr),
        Expr::UnaryOp { expr, .. } | Expr::InList { expr, .. } | Expr::InSubquery { expr, .. }
        | Expr::Interval { expr, .. } => one(*expr),
        Expr::BinaryOp { left, right, .. } => two(*left, *right),
        Expr::Between { expr, low, high, .. } => three(*expr, *low, *high),
        Expr::Like { expr, pattern, .. } | Expr::ILike { expr, pattern, .. } =>
            two(*expr, *pattern),
        Expr::Case { operand, .. } => seq![unboxed(operand)],
        Expr::ArrayIndex { obj, indexes } => one(*obj) + listed(indexes@),
        Expr::Function(f) => function_operands(*f),
        _ => Seq::empty(),
    }
}

/// The routine that computes the result of a function call. A custom function is evaluated
/// from its body, and the time of day is read off the clock, so that neither has one.
pub open spec fn routine(f: Function) -> Option<Routine> {
    match f {
        Function::Concat(_) => Some(Routine::Concat),
        Function::ConcatWs { .. } => Some(Routine::ConcatWs),
        Function::IfNull { .. } => Some(Routine::IfNull),
        Function::Lower(_) => Some(Routine::Lower),
        Function::Upper(_) => Some(Routine::Upper),
        Function::Left { .. } | Function::Right { .. } => Some(Routine::LeftOrRight),
        Function::Lpad { .. } | Function::Rpad { .. } => Some(Routine::LpadOrRpad),
        Function::Trim { trim_where_field, .. } => Some(Routine::Trim(trim_where_field)),
        Function::Ltrim { .. } => Some(Routine::Ltrim),
        Function::Rtrim { .. } => Some(Routine::Rtrim),
        Function::Reverse(_) => Some(Routine::Reverse),
        Function::Repeat { .. } => Some(Routine::Repeat),
        Function::Substr { .. } => Some(Routine::Substr),
        Function::Ascii(_) => Some(Routine::Ascii),
        Function::Chr(_) => Some(Routine::Chr),
        Function::Abs(_) => Some(Routine::Abs),
        Function::Sign(_) => Some(Routine::Sign),
        Function::Sqrt(_) => Some(Routine::Sqrt),
        Function::Power { .. } => Some(Routine::Power),
        Function::Ceil(_) => Some(Routine::Ceil),
        Function::Rand(_) => Some(Routine::Rand),
        Function::Round(_) => Some(Routine::Round),
        Function::Floor(_) => Some(Routine::Floor),
        Function::Radians(_) => Some(Routine::Radians),
        Function::Degrees(_) => Some(Routine::Degrees),
        Function::Pi() => Some(Routine::Pi),
        Function::Exp(_) => Some(Routine::Exp),
        Function::Log { .. } => Some(Routine::Log),
        Function::Ln(_) => Some(Routine::Ln),
        Function::Log2(_) => Some(Routine::Log2),
        Function::Log10(_) => Some(Routine::Log10),
        Function::Sin(_) => Some(Routine::Sin),
        Function::Cos(_) => Some(Routine::Cos),
        Function::Tan(_) => Some(Routine::Tan),
        Function::Asin(_) => Some(Routine::Asin),
        Function::Acos(_) => Some(Routine::Acos),
        Function::Atan(_) => Some(Routine::Atan),
        Function::Div { .. } => Some(Routine::Div),
        Function::Mod { .. } => Some(Routine::Modulo),
        Function::Gcd { .. } => Some(Routine::Gcd),
        Function::Lcm { .. } => Some(Routine::Lcm),
        Function::Unwrap { .. } => Some(Routine::Unwrap),
        Function::GenerateUuid() => Some(Routine::GenerateUuid),
        Function::Format { .. } => Some(Routine::Format),
        Function::ToDate { .. } => Some(Routine::ToDate),
        Function::ToTimestamp { .. } => Some(Routine::ToTimestamp),
        Function::ToTime { .. } => Some(Routine::ToTime),
        Function::Position { .. } => Some(Routine::Position),
        Function::FindIdx { .. } => Some(Routine::FindIdx),
        Function::Cast { data_type, .. } => Some(Routine::Cast(data_type)),
        Function::Extract { field, .. } => Some(Routine::Extract(field)),
        Function::Append { .. } => Some(Routine::Append),
        Function::Custom { .. } | Function::Now() => None,
    }
}

/// How large an expression is: as many steps as evaluating it takes, at most, between one
/// question and the next.
pub open spec fn size(e: Expr) -> nat
    decreases e,
{
    match e {
        Expr::Nested(expr) | Expr::IsNull(expr) | Expr::IsNotNull(expr) => 3 + size(*expr),
        Expr::UnaryOp { expr, .. } | Expr::InSubquery { expr, .. }
        | Expr::Interval { expr, .. } => 3 + size(*expr),
        Expr::InList { expr, list, .. } => 3 + size(*expr) + list_size(list@),
        Expr::BinaryOp { left, right, .. } => 4 + size(*left) + size(*right),
        Expr::Between { expr, low, high, .. } => 5 + size(*expr) + size(*low) + size(*high),
        Expr::Like { expr, pattern, .. } | Expr::ILike { expr, pattern, .. } =>
            4 + size(*expr) + size(*pattern),
        Expr::Case { operand, when_then, else_result } =>
            2 + boxed_size(operand) + pairs_size(when_then@) + boxed_size(else_result),
        Expr::ArrayIndex { obj, indexes } => 3 + size(*obj) + list_size(indexes@),
        Expr::Function(f) => 2 + function_size(*f),
        _ => 2,
    }
}

/// The size of an expression that may be missing.
pub open spec fn boxed_size(e: Option<Box<Expr>>) -> nat
    decreases e,
{
    match e {
        Some(e) => 1 + size(*e),
        None => 0,
    }
}

/// The size of an expression that may be missing.
pub open spec fn slot_size(e: Option<Expr>) -> nat
    decreases e,
{
    match e {
        Some(e) => 1 + size(e),
        None => 0,
    }
}

/// The size of the expressions of a list.
pub open spec fn list_size(list: Seq<Expr>) -> nat
    decreases list,
{
    if list.len() == 0 {
        0
    } else {
        1 + size(list[0]) + list_size(list.subrange(1, list.len() as int))
    }
}

/// The size of the expressions of a list of pairs.
pub open spec fn pairs_size(list: Seq<(Expr, Expr)>) -> nat
    decreases list,
{
    if list.len() == 0 {
        0
    } else {
        2 + size(list[0].0) + size(list[0].1) + pairs_size(list.subrange(1, list.len() as int))
    }
}

/// The size of the expressions of a function call.
pub open spec fn function_size(f: Function) -> nat
    decreases f,
{
    match f {
        Function::Pi() | Function::GenerateUuid() | Function::Now() => 0,
        Function::Custom { exprs, .. } => list_size(exprs@),
        Function::Concat(exprs) => list_size(exprs@),
        Function::ConcatWs { separator, exprs } => 1 + size(separator) + list_size(exprs@),
        Function::IfNull { expr, then } => 2 + size(expr) + size(then),
        Function::Left { expr, size: s } | Function::Right { expr, size: s } =>
            2 + size(expr) + size(s),
        Function::Lpad { expr, size: s, fill } | Function::Rpad { expr, size: s, fill } =>
            2 + size(expr) + size(s) + slot_size(fill),
        Function::Trim { expr, filter_chars, .. } => 1 + size(expr) + slot_size(filter_chars),
        Function::Ltrim { expr, chars } | Function::Rtrim { expr, chars } =>
            1 + size(expr) + slot_size(chars),
        Function::Repeat { expr, num } => 2 + size(expr) + size(num),
        Function::Substr { expr, start, count } =>
            2 + size(expr) + size(start) + slot_size(count),
        Function::Power { expr, power } => 2 + size(expr) + size(power),
        Function::Rand(seed) => slot_size(seed),
        Function::Log { antilog, base } => 2 + size(antilog) + size(base),
        Function::Div { dividend, divisor } | Function::Mod { dividend, divisor } =>
            2 + size(dividend) + size(divisor),
        Function::Gcd { left, right } | Function::Lcm { left, right } =>
            2 + size(left) + size(right),
        Function::Unwrap { expr, selector } => 2 + size(expr) + size(selector),
        Function::Format { expr, format } | Function::ToDate { expr, format }
        | Function::ToTimestamp { expr, format } | Function::ToTime { expr, format } =>
            2 + size(expr) + size(format),
        Function::Position { from_expr, sub_expr } => 2 + size(from_expr) + size(sub_expr),
        Function::FindIdx { from_expr, sub_expr, start } =>
            2 + size(from_expr) + size(sub_expr) + slot_size(start),
        Function::Append { expr, value } => 2 + size(expr) + size(value),
        Function::Cast { expr, .. } | Function::Extract { expr, .. } => 1 + size(expr),
        Function::Lower(e) | Function::Upper(e) | Function::Reverse(e) | Function::Ascii(e)
        | Function::Chr(e) | Function::Abs(e) | Function::Sign(e) | Function::Sqrt(e)
        | Function::Ceil(e) | Function::Round(e) | Function::Floor(e) | Function::Radians(e)
        | Function::Degrees(e) | Function::Exp(e) | Function::Ln(e) | Function::Log2(e)
        | Function::Log10(e) | Function::Sin(e) | Function::Cos(e) | Function::Tan(e)
        | Function::Asin(e) | Function::Acos(e) | Function::Atan(e) => 1 + size(e),
    }
}

/// The size of the operands of a list.
pub open spec fn operands_size(slots: Seq<Option<Expr>>) -> nat
    decreases slots.len(),
{
    if slots.len() == 0 {
        0
    } else {
        slot_size(slots[0]) + operands_size(slots.subrange(1, slots.len() as int))
    }
}

/// The size of the subexpressions that an expression evaluates only as it needs them.
pub open spec fn deferred_size(e: Expr) -> nat {
    match e {
        Expr::InList { list, .. } => list_size(list@),
        Expr::Case { when_then, else_result, .. } =>
            pairs_size(when_then@) + boxed_size(else_result),
        Expr::Function(f) => match *f {
            Function::Custom { exprs, .. } => list_size(exprs@),
            _ => 0,
        },
        _ => 0,
    }
}

/// A list of operands is as large as the first and the rest.
proof fn lemma_operands_size_cons(first: Option<Expr>, rest: Seq<Option<Expr>>)
    ensures
        operands_size(seq![first] + rest) == slot_size(first) + operands_size(rest),
{
    let all = seq![first] + rest;
    assert(all.subrange(1, all.len() as int) =~= rest);
}

/// A list of operands that may be missing is as large as its expressions are.
proof fn lemma_listed_size(list: Seq<Expr>)
    ensures
        operands_size(listed(list)) == list_size(list),
    decreases list.len(),
{
    if list.len() > 0 {
        let rest = list.subrange(1, list.len() as int);
        lemma_listed_size(rest);
        assert(listed(list) =~= seq![Some(list[0])] + listed(rest));
        lemma_operands_size_cons(Some(list[0]), listed(rest));
    }
}

/// The sizes of short lists of operands.
proof fn lemma_short_sizes(a: Option<Expr>, b: Option<Expr>, c: Option<Expr>)
    ensures
        operands_size(seq![a]) == slot_size(a),
        operands_size(seq![a, b]) == slot_size(a) + slot_size(b),
        operands_size(seq![a, b, c]) == slot_size(a) + slot_size(b) + slot_size(c),
{
    let none = Seq::<Option<Expr>>::empty();
    lemma_operands_size_cons(c, none);
    lemma_operands_size_cons(b, none);
    lemma_operands_size_cons(a, none);
    lemma_operands_size_cons(b, seq![c]);
    lemma_operands_size_cons(a, seq![b]);
    lemma_operands_size_cons(a, seq![b, c]);
    assert(seq![a] + none =~= seq![a]);
    assert(seq![b] + none =~= seq![b]);
    assert(seq![c] + none =~= seq![c]);
    assert(seq![b] + seq![c] =~= seq![b, c]);
    assert(seq![a] + seq![b] =~= seq![a, b]);
    assert(seq![a] + seq![b, c] =~= seq![a, b, c]);
}

/// A function call is as large as its operands, unless it is custom.
proof fn lemma_function_size(f: Function)
    requires
        !(f is Custom),
    ensures
        operands_size(function_operands(f)) == function_size(f),
{
    match f {
        Function::Concat(exprs) => {
            lemma_listed_size(exprs@);
        },
        Function::ConcatWs { separator, exprs } => {
            lemma_listed_size(exprs@);
            lemma_operands_size_cons(Some(separator), listed(exprs@));
        },
        Function::Rand(seed) => {
            lemma_short_sizes(seed, None, None);
        },
        Function::IfNull { expr, then } => {
            lemma_short_sizes(Some(expr), Some(then), None);
        },
        Function::Left { expr, size: s } | Function::Right { expr, size: s } => {
            lemma_short_sizes(Some(expr), Some(s), None);
        },
        Function::Lpad { expr, size: s, fill } | Function::Rpad { expr, size: s, fill } => {
            lemma_short_sizes(Some(expr), Some(s), fill);
        },
        Function::Trim { expr, filter_chars, .. } => {
            lemma_short_sizes(Some(expr), filter_chars, None);
        },
        Function::Ltrim { expr, chars } | Function::Rtrim { expr, chars } => {
            lemma_short_sizes(Some(expr), chars, None);
        },
        Function::Repeat { expr, num } => {
            lemma_short_sizes(Some(expr), Some(num), None);
        },
        Function::Substr { expr, start, count } => {
            lemma_short_sizes(Some(expr), Some(start), count);
        },
        Function::Power { expr, power } => {
            lemma_short_sizes(Some(expr), Some(power), None);
        },
        Function::Log { antilog, base } => {
            lemma_short_sizes(Some(antilog), Some(base), None);
        },
        Function::Div { dividend, divisor } | Function::Mod { dividend, divisor } => {
            lemma_short_sizes(Some(dividend), Some(divisor), None);
        },
        Function::Gcd { left, right } | Function::Lcm { left, right } => {
            lemma_short_sizes(Some(left), Some(right), None);
        },
        Function::Unwrap { expr, selector } => {
            lemma_short_sizes(Some(expr), Some(selector), None);
        },
        Function::Format { expr, format } | Function::ToDate { expr, format }
        | Function::ToTimestamp { expr, format } | Function::ToTime { expr, format } => {
            lemma_short_sizes(Some(expr), Some(format), None);
        },
        Function::Position { from_expr, sub_expr } => {
            lemma_short_sizes(Some(from_expr), Some(sub_expr), None);
        },
        Function::FindIdx { from_expr, sub_expr, start } => {
            lemma_short_sizes(Some(from_expr), Some(sub_expr), start);
        },
        Function::Append { expr, value } => {
            lemma_short_sizes(Some(expr), Some(value), None);
        },
        Function::Cast { expr, .. } | Function::Extract { expr, .. } => {
            lemma_short_sizes(Some(expr), None, None);
        },
        Function::Lower(e) | Function::Upper(e) | Function::Reverse(e) | Function::Ascii(e)
        | Function::Chr(e) | Function::Abs(e) | Function::Sign(e) | Function::Sqrt(e)
        | Function::Ceil(e) | Function::Round(e) | Function::Floor(e) | Function::Radians(e)
        | Function::Degrees(e) | Function::Exp(e) | Function::Ln(e) | Function::Log2(e)
        | Function::Log10(e) | Function::Sin(e) | Function::Cos(e) | Function::Tan(e)
        | Function::Asin(e) | Function::Acos(e) | Function::Atan(e) => {
            lemma_short_sizes(Some(e), None, None);
        },
        _ => {},
    }
}

/// An expression is larger than all that it evaluates.
pub proof fn lemma_size(e: Expr)
    ensures
        operands_size(operands(e)) + deferred_size(e) + 2 <= size(e),
{
    match e {
        Expr::Nested(x) | Expr::IsNull(x) | Expr::IsNotNull(x) => {
            lemma_short_sizes(Some(*x), None, None);
        },
        Expr::UnaryOp { expr, .. } | Expr::InList { expr, .. } | Expr::InSubquery { expr, .. }
        | Expr::Interval { expr, .. } => {
            lemma_short_sizes(Some(*expr), None, None);
        },
        Expr::BinaryOp { left, right, .. } => {
            lemma_short_sizes(Some(*left), Some(*right), None);
        },
        Expr::Between { expr, low, high, .. } => {
            lemma_short_sizes(Some(*expr), Some(*low), Some(*high));
        },
        Expr::Like { expr, pattern, .. } | Expr::ILike { expr, pattern, .. } => {
            lemma_short_sizes(Some(*expr), Some(*pattern), None);
        },
        Expr::Case { operand, .. } => {
            lemma_short_sizes(unboxed(operand), None, None);
            assert(slot_size(unboxed(operand)) == boxed_size(operand));
        },
        Expr::ArrayIndex { obj, indexes } => {
            lemma_listed_size(indexes@);
            lemma_operands_size_cons(Some(*obj), listed(indexes@));
        },
        Expr::Function(f) => {
            match *f {
                Function::Custom { exprs, .. } => {
                    assert(function_size(*f) == list_size(exprs@));
                },
                _ => {
                    lemma_function_size(*f);
                },
            }
        },
        _ => {},
    }
}

/// What is left of a list of operands after one of them.
pub proof fn lemma_operand_size(slots: Seq<Option<Expr>>, k: int)
    requires
        0 <= k < slots.len(),
    ensures
        operands_size(slots.skip(k)) == slot_size(slots[k]) + operands_size(slots.skip(k + 1)),
        slot_size(slots[k]) <= operands_size(slots),
    decreases k,
{
    let rest = slots.subrange(1, slots.len() as int);
    assert(slots.skip(k).subrange(1, slots.skip(k).len() as int) =~= slots.skip(k + 1));
    if k > 0 {
        lemma_operand_size(rest, k - 1);
    }
}

/// What is left of a list of expressions after one of them.
pub proof fn lemma_item_size(list: Seq<Expr>, k: int)
    requires
        0 <= k < list.len(),
    ensures
        list_size(list.skip(k)) == 1 + size(list[k]) + list_size(list.skip(k + 1)),
        1 + size(list[k]) <= list_size(list),
    decreases k,
{
    let rest = list.subrange(1, list.len() as int);
    assert(list.skip(k).subrange(1, list.skip(k).len() as int) =~= list.skip(k + 1));
    if k > 0 {
        lemma_item_size(rest, k - 1);
    }
}

/// A pair is no larger than the list that holds it.
pub proof fn lemma_pair_size(list: Seq<(Expr, Expr)>, k: int)
    requires
        0 <= k < list.len(),
    ensures
        2 + size(list[k].0) + size(list[k].1) <= pairs_size(list),
    decreases k,
{
    if k > 0 {
        lemma_pair_size(list.subrange(1, list.len() as int), k - 1);
    }
}

/// Whether the references are those to the operands.
pub open spec fn refer_to(slots: Seq<Option<&Expr>>, exprs: Seq<Option<Expr>>) -> bool {
    &&& slots.len() == exprs.len()
    &&& forall|i: int|
        0 <= i < slots.len() ==> match (#[trigger] slots[i], exprs[i]) {
            (Some(slot), Some(expr)) => *slot == expr,
            (None, None) => true,
            _ => false,
        }
}

/// Finds the routine of a function call.
pub fn find_routine(f: &Function) -> (found: Option<Routine>)
    ensures
        found == routine(*f),
{
    match f {
        Function::Concat(_) => Some(Routine::Concat),
        Function::ConcatWs { .. } => Some(Routine::ConcatWs),
        Function::IfNull { .. } => Some(Routine::IfNull),
        Function::Lower(_) => Some(Routine::Lower),
        Function::Upper(_) => Some(Routine::Upper),
        Function::Left { .. } | Function::Right { .. } => Some(Routine::LeftOrRight),
        Function::Lpad { .. } | Function::Rpad { .. } => Some(Routine::LpadOrRpad),
        Function::Trim { trim_where_field, .. } => Some(Routine::Trim(*trim_where_field)),
        Function::Ltrim { .. } => Some(Routine::Ltrim),
        Function::Rtrim { .. } => Some(Routine::Rtrim),
        Function::Reverse(_) => Some(Routine::Reverse),
        Function::Repeat { .. } => Some(Routine::Repeat),
        Function::Substr { .. } => Some(Routine::Substr),
        Function::Ascii(_) => Some(Routine::Ascii),
        Function::Chr(_) => Some(Routine::Chr),
        Function::Abs(_) => Some(Routine::Abs),
        Function::Sign(_) => Some(Routine::Sign),
        Function::Sqrt(_) => Some(Routine::Sqrt),
        Function::Power { .. } => Some(Routine::Power),
        Function::Ceil(_) => Some(Routine::Ceil),
        Function::Rand(_) => Some(Routine::Rand),
        Function::Round(_) => Some(Routine::Round),
        Function::Floor(_) => Some(Routine::Floor),
        Function::Radians(_) => Some(Routine::Radians),
        Function::Degrees(_) => Some(Routine::Degrees),
        Function::Pi() => Some(Routine::Pi),
        Function::Exp(_) => Some(Routine::Exp),
        Function::Log { .. } => Some(Routine::Log),
        Function::Ln(_) => Some(Routine::Ln),
        Function::Log2(_) => Some(Routine::Log2),
        Function::Log10(_) => Some(Routine::Log10),
        Function::Sin(_) => Some(Routine::Sin),
        Function::Cos(_) => Some(Routine::Cos),
        Function::Tan(_) => Some(Routine::Tan),
        Function::Asin(_) => Some(Routine::Asin),
        Function::Acos(_) => Some(Routine::Acos),
        Function::Atan(_) => Some(Routine::Atan),
        Function::Div { .. } => Some(Routine::Div),
        Function::Mod { .. } => Some(Routine::Modulo),
        Function::Gcd { .. } => Some(Routine::Gcd),
        Function::Lcm { .. } => Some(Routine::Lcm),
        Function::Unwrap { .. } => Some(Routine::Unwrap),
        Function::GenerateUuid() => Some(Routine::GenerateUuid),
        Function::Format { .. } => Some(Routine::Format),
        Function::ToDate { .. } => Some(Routine::ToDate),
        Function::ToTimestamp { .. } => Some(Routine::ToTimestamp),
        Function::ToTime { .. } => Some(Routine::ToTime),
        Function::Position { .. } => Some(Routine::Position),
        Function::FindIdx { .. } => Some(Routine::FindIdx),
        Function::Cast { data_type, .. } => Some(Routine::Cast(*data_type)),
        Function::Extract { field, .. } => Some(Routine::Extract(*field)),
        Function::Append { .. } => Some(Routine::Append),
        Function::Custom { .. } | Function::Now() => None,
    }
}

/// Appends references to the expressions of a list.
fn append_list<'a>(slots: &mut Vec<Option<&'a Expr>>, list: &'a Vec<Expr>)
    ensures
        final(slots)@.len() == old(slots)@.len() + list@.len(),
        forall|i: int| 0 <= i < old(slots)@.len() ==> final(slots)@[i] == old(slots)@[i],
        forall|i: int|
            old(slots)@.len() <= i < final(slots)@.len() ==> final(slots)@[i] == Some(
                &list@[i - old(slots)@.len()],
            ),
{
    let ghost before = slots@;
    for k in 0..list.len()
        invariant
            slots@.len() == before.len() + k,
            forall|i: int| 0 <= i < before.len() ==> slots@[i] == before[i],
            forall|i: int|
                before.len() <= i < slots@.len() ==> slots@[i] == Some(&list@[i - before.len()]),
    {
        slots.push(Some(&list[k]));
    }
}

/// Lists the operands of a function call.
fn list_function_operands<'a>(f: &'a Function) -> (slots: Vec<Option<&'a Expr>>)
    ensures
        refer_to(slots@, function_operands(*f)),
{
    match f {
        Function::Custom { .. } | Function::Pi() | Function::GenerateUuid() | Function::Now() =>
            Vec::new(),
        Function::Concat(exprs) => {
            let mut slots: Vec<Option<&'a Expr>> = Vec::new();
            append_list(&mut slots, exprs);
            slots
        },
        Function::ConcatWs { separator, exprs } => {
            let mut slots: Vec<Option<&'a Expr>> = vec![Some(separator)];
            append_list(&mut slots, exprs);
            slots
        },
        Function::IfNull { expr, then } => vec![Some(expr), Some(then)],
        Function::Left { expr, size } | Function::Right { expr, size } => {
            vec![Some(expr), Some(size)]
        },
        Function::Lpad { expr, size, fill } | Function::Rpad { expr, size, fill } => {
            vec![Some(expr), Some(size), fill.as_ref()]
        },
        Function::Trim { expr, filter_chars, .. } => vec![Some(expr), filter_chars.as_ref()],
        Function::Ltrim { expr, chars } | Function::Rtrim { expr, chars } => {
            vec![Some(expr), chars.as_ref()]
        },
        Function::Repeat { expr, num } => vec![Some(expr), Some(num)],
        Function::Substr { expr, start, count } => {
            vec![Some(expr), Some(start), count.as_ref()]
        },
        Function::Power { expr, power } => vec![Some(expr), Some(power)],
        Function::Rand(seed) => vec![seed.as_ref()],
        Function::Log { antilog, base } => vec![Some(antilog), Some(base)],
        Function::Div { dividend, divisor } | Function::Mod { dividend, divisor } => {
            vec![Some(dividend), Some(divisor)]
        },
        Function::Gcd { left, right } | Function::Lcm { left, right } => {
            vec![Some(left), Some(right)]
        },
        Function::Unwrap { expr, selector } => vec![Some(expr), Some(selector)],
        Function::Format { expr, format } | Function::ToDate { expr, format }
        | Function::ToTimestamp { expr, format } | Function::ToTime { expr, format } => {
            vec![Some(expr), Some(format)]
        },
        Function::Position { from_expr, sub_expr } => vec![Some(from_expr), Some(sub_expr)],
        Function::FindIdx { from_expr, sub_expr, start } => {
            vec![Some(from_expr), Some(sub_expr), start.as_ref()]
        },
        Function::Append { expr, value } => vec![Some(expr), Some(value)],
        Function::Cast { expr, .. } | Function::Extract { expr, .. } => vec![Some(expr)],
        Function::Lower(e) | Function::Upper(e) | Function::Reverse(e) | Function::Ascii(e)
        | Function::Chr(e) | Function::Abs(e) | Function::Sign(e) | Function::Sqrt(e)
        | Function::Ceil(e) | Function::Round(e) | Function::Floor(e) | Function::Radians(e)
        | Function::Degrees(e) | Function::Exp(e) | Function::Ln(e) | Function::Log2(e)
        | Function::Log10(e) | Function::Sin(e) | Function::Cos(e) | Function::Tan(e)
        | Function::Asin(e) | Function::Acos(e) | Function::Atan(e) => vec![Some(e)],
    }
}

/// Lists the operands of an expression.
pub fn list_operands<'a>(e: &'a Expr) -> (slots: Vec<Option<&'a Expr>>)
    ensures
        refer_to(slots@, operands(*e)),
{
    match e {
        Expr::Nested(expr) | Expr::IsNull(expr) | Expr::IsNotNull(expr) => vec![Some(&**expr)],
        Expr::UnaryOp { expr, .. } | Expr::InList { expr, .. } | Expr::InSubquery { expr, .. }
        | Expr::Interval { expr, .. } => vec![Some(&**expr)],
        Expr::BinaryOp { left, right, .. } => vec![Some(&**left), Some(&**right)],
        Expr::Between { expr, low, high, .. } => {
            vec![Some(&**expr), Some(&**low), Some(&**high)]
        },
        Expr::Like { expr, pattern, .. } | Expr::ILike { expr, pattern, .. } => {
            vec![Some(&**expr), Some(&**pattern)]
        },
        Expr::Case { operand, .. } => match operand {
            Some(operand) => vec![Some(&**operand)],
            None => vec![None],
        },
        Expr::ArrayIndex { obj, indexes } => {
            let mut slots: Vec<Option<&'a Expr>> = vec![Some(&**obj)];
            append_list(&mut slots, indexes);
            slots
        },
        Expr::Function(f) => list_function_operands(f),
        _ => Vec::new(),
    }
}

} // verus!
