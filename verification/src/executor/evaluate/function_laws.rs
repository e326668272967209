//! What each built-in function hands to its routine.
use vstd::prelude::*;

use crate::ast::{DataType, DateTimeField, Expr, Function, TrimWhereField};
use crate::data::Evaluated;
use crate::executor::evaluate::compose::{
    all_give, ends_with, hands_on, in_order, joined, lemma_in_order, lemma_operands_done,
};
use crate::executor::evaluate::operands::{operands, routine, Routine};
use crate::executor::evaluate::protocol::{Answer, RequestView};
use crate::executor::evaluate::semantics::Scope;
use crate::result::Error;

verus! {

/// Whether a call of a function evaluates these operands from left to right where it stands,
/// hands what they give, each in its place, to the routine, and gives what the routine gives.
pub open spec fn calls(
    scope: Scope,
    func: Function,
    routine: Routine,
    slots: Seq<Option<Expr>>,
) -> bool {
    let e = Expr::Function(Box::new(func));
    &&& in_order(scope, e, slots)
    &&& forall|logs: Seq<Seq<Answer>>, values: Seq<Option<Evaluated>>| #[trigger]
        all_give(scope, slots, logs, values) ==> hands_on(
            scope,
            e,
            joined(logs),
            RequestView::Call { func, routine, operands: values },
        )
}

/// A function that has a routine calls it with its operands.
proof fn lemma_calls(scope: Scope, func: Function, called: Routine, slots: Seq<Option<Expr>>)
    requires
        operands(Expr::Function(Box::new(func))) =~= slots,
        routine(func) == Some(called),
        !(func is Custom),
        !(func is Now),
    ensures
        calls(scope, func, called, slots),
{
    let e = Expr::Function(Box::new(func));
    lemma_in_order(scope, e, slots);
    assert forall|logs: Seq<Seq<Answer>>, values: Seq<Option<Evaluated>>| #[trigger]
        all_give(scope, slots, logs, values) implies hands_on(
        scope,
        e,
        joined(logs),
        RequestView::Call { func, routine: called, operands: values },
    ) by {
        let log = joined(logs);
        lemma_operands_done(scope, e, slots, logs, values, Seq::empty());
        assert(log + Seq::empty() =~= log);
        assert forall|result: Result<Evaluated, Error>| #[trigger]
            ends_with(scope, e, log.push(Answer::Evaluated(result)), result) by {
            let last = seq![Answer::Evaluated(result)];
            lemma_operands_done(scope, e, slots, logs, values, last);
            assert(log + last =~= log.push(Answer::Evaluated(result)));
        }
    }
}

/// Functions of one text: `LOWER`, `UPPER`, `REVERSE`, `ASCII` and `CHR`.
pub proof fn law_functions_of_a_text(scope: Scope, expr: Expr)
    ensures
        calls(scope, Function::Lower(expr), Routine::Lower, seq![Some(expr)]),
        calls(scope, Function::Upper(expr), Routine::Upper, seq![Some(expr)]),
        calls(scope, Function::Reverse(expr), Routine::Reverse, seq![Some(expr)]),
        calls(scope, Function::Ascii(expr), Routine::Ascii, seq![Some(expr)]),
        calls(scope, Function::Chr(expr), Routine::Chr, seq![Some(expr)]),
{
    lemma_calls(scope, Function::Lower(expr), Routine::Lower, seq![Some(expr)]);
    lemma_calls(scope, Function::Upper(expr), Routine::Upper, seq![Some(expr)]);
    lemma_calls(scope, Function::Reverse(expr), Routine::Reverse, seq![Some(expr)]);
    lemma_calls(scope, Function::Ascii(expr), Routine::Ascii, seq![Some(expr)]);
    lemma_calls(scope, Function::Chr(expr), Routine::Chr, seq![Some(expr)]);
}

/// Functions of one number.
pub proof fn law_functions_of_a_number(scope: Scope, expr: Expr)
    ensures
        calls(scope, Function::Abs(expr), Routine::Abs, seq![Some(expr)]),
        calls(scope, Function::Sign(expr), Routine::Sign, seq![Some(expr)]),
        calls(scope, Function::Sqrt(expr), Routine::Sqrt, seq![Some(expr)]),
        calls(scope, Function::Ceil(expr), Routine::Ceil, seq![Some(expr)]),
        calls(scope, Function::Round(expr), Routine::Round, seq![Some(expr)]),
        calls(scope, Function::Floor(expr), Routine::Floor, seq![Some(expr)]),
        calls(scope, Function::Radians(expr), Routine::Radians, seq![Some(expr)]),
        calls(scope, Function::Degrees(expr), Routine::Degrees, seq![Some(expr)]),
        calls(scope, Function::Exp(expr), Routine::Exp, seq![Some(expr)]),
        calls(scope, Function::Ln(expr), Routine::Ln, seq![Some(expr)]),
        calls(scope, Function::Log2(expr), Routine::Log2, seq![Some(expr)]),
        calls(scope, Function::Log10(expr), Routine::Log10, seq![Some(expr)]),
        calls(scope, Function::Sin(expr), Routine::Sin, seq![Some(expr)]),
        calls(scope, Function::Cos(expr), Routine::Cos, seq![Some(expr)]),
        calls(scope, Function::Tan(expr), Routine::Tan, seq![Some(expr)]),
        calls(scope, Function::Asin(expr), Routine::Asin, seq![Some(expr)]),
        calls(scope, Function::Acos(expr), Routine::Acos, seq![Some(expr)]),
        calls(scope, Function::Atan(expr), Routine::Atan, seq![Some(expr)]),
{
    lemma_calls(scope, Function::Abs(expr), Routine::Abs, seq![Some(expr)]);
    lemma_calls(scope, Function::Sign(expr), Routine::Sign, seq![Some(expr)]);
    lemma_calls(scope, Function::Sqrt(expr), Routine::Sqrt, seq![Some(expr)]);
    lemma_calls(scope, Function::Ceil(expr), Routine::Ceil, seq![Some(expr)]);
    lemma_calls(scope, Function::Round(expr), Routine::Round, seq![Some(expr)]);
    lemma_calls(scope, Function::Floor(expr), Routine::Floor, seq![Some(expr)]);
    lemma_calls(scope, Function::Radians(expr), Routine::Radians, seq![Some(expr)]);
    lemma_calls(scope, Function::Degrees(expr), Routine::Degrees, seq![Some(expr)]);
    lemma_calls(scope, Function::Exp(expr), Routine::Exp, seq![Some(expr)]);
    lemma_calls(scope, Function::Ln(expr), Routine::Ln, seq![Some(expr)]);
    lemma_calls(scope, Function::Log2(expr), Routine::Log2, seq![Some(expr)]);
    lemma_calls(scope, Function::Log10(expr), Routine::Log10, seq![Some(expr)]);
    lemma_calls(scope, Function::Sin(expr), Routine::Sin, seq![Some(expr)]);
    lemma_calls(scope, Function::Cos(expr), Routine::Cos, seq![Some(expr)]);
    lemma_calls(scope, Function::Tan(expr), Routine::Tan, seq![Some(expr)]);
    lemma_calls(scope, Function::Asin(expr), Routine::Asin, seq![Some(expr)]);
    lemma_calls(scope, Function::Acos(expr), Routine::Acos, seq![Some(expr)]);
    lemma_calls(scope, Function::Atan(expr), Routine::Atan, seq![Some(expr)]);
}

/// `CAST` and `EXTRACT` hand on what they are to cast to, or to extract.
pub proof fn law_cast_and_extract(
    scope: Scope,
    expr: Expr,
    data_type: DataType,
    field: DateTimeField,
)
    ensures
        calls(
            scope,
            (Function::Cast { expr, data_type }),
            Routine::Cast(data_type),
            seq![Some(expr)],
        ),
        calls(
            scope,
            (Function::Extract { field, expr }),
            Routine::Extract(field),
            seq![Some(expr)],
        ),
{
    lemma_calls(
        scope,
        (Function::Cast { expr, data_type }),
        Routine::Cast(data_type),
        seq![Some(expr)],
    );
    lemma_calls(
        scope,
        (Function::Extract { field, expr }),
        Routine::Extract(field),
        seq![Some(expr)],
    );
}

/// `PI` and `GENERATE_UUID` take nothing.
pub proof fn law_functions_of_nothing(scope: Scope)
    ensures
        calls(scope, Function::Pi(), Routine::Pi, Seq::empty()),
        calls(scope, Function::GenerateUuid(), Routine::GenerateUuid, Seq::empty()),
{
    lemma_calls(scope, Function::Pi(), Routine::Pi, Seq::empty());
    lemma_calls(scope, Function::GenerateUuid(), Routine::GenerateUuid, Seq::empty());
}

/// `POWER` takes the base and then the exponent.
pub proof fn law_power(scope: Scope, expr: Expr, power: Expr)
    ensures
        calls(
            scope,
            (Function::Power { expr, power }),
            Routine::Power,
            seq![Some(expr), Some(power)],
        ),
{
    lemma_calls(
        scope,
        (Function::Power { expr, power }),
        Routine::Power,
        seq![Some(expr), Some(power)],
    );
}

/// `LOG` takes the antilogarithm and then the base.
pub proof fn law_log(scope: Scope, antilog: Expr, base: Expr)
    ensures
        calls(
            scope,
            (Function::Log { antilog, base }),
            Routine::Log,
            seq![Some(antilog), Some(base)],
        ),
{
    lemma_calls(
        scope,
        (Function::Log { antilog, base }),
        Routine::Log,
        seq![Some(antilog), Some(base)],
    );
}

/// `DIV` and `MOD` take the dividend and then the divisor.
pub proof fn law_div_and_mod(scope: Scope, dividend: Expr, divisor: Expr)
    ensures
        calls(
            scope,
            (Function::Div { dividend, divisor }),
            Routine::Div,
            seq![Some(dividend), Some(divisor)],
        ),
        calls(
            scope,
            (Function::Mod { dividend, divisor }),
            Routine::Modulo,
            seq![Some(dividend), Some(divisor)],
        ),
{
    lemma_calls(
        scope,
        (Function::Div { dividend, divisor }),
        Routine::Div,
        seq![Some(dividend), Some(divisor)],
    );
    lemma_calls(
        scope,
        (Function::Mod { dividend, divisor }),
        Routine::Modulo,
        seq![Some(dividend), Some(divisor)],
    );
}

/// `GCD` and `LCM` take their numbers from left to right.
pub proof fn law_gcd_and_lcm(scope: Scope, left: Expr, right: Expr)
    ensures
        calls(scope, (Function::Gcd { left, right }), Routine::Gcd, seq![Some(left), Some(right)]),
        calls(scope, (Function::Lcm { left, right }), Routine::Lcm, seq![Some(left), Some(right)]),
{
    lemma_calls(
        scope,
        (Function::Gcd { left, right }),
        Routine::Gcd,
        seq![Some(left), Some(right)],
    );
    lemma_calls(
        scope,
        (Function::Lcm { left, right }),
        Routine::Lcm,
        seq![Some(left), Some(right)],
    );
}

/// `IFNULL` takes the value and then what stands in for it. Both are evaluated in any case.
pub proof fn law_ifnull(scope: Scope, expr: Expr, then: Expr)
    ensures
        calls(
            scope,
            (Function::IfNull { expr, then }),
            Routine::IfNull,
            seq![Some(expr), Some(then)],
        ),
{
    lemma_calls(
        scope,
        (Function::IfNull { expr, then }),
        Routine::IfNull,
        seq![Some(expr), Some(then)],
    );
}

/// `LEFT` and `RIGHT` take the text and then the size.
pub proof fn law_left_and_right(scope: Scope, expr: Expr, size: Expr)
    ensures
        calls(
            scope,
            (Function::Left { expr, size }),
            Routine::LeftOrRight,
            seq![Some(expr), Some(size)],
        ),
        calls(
            scope,
            (Function::Right { expr, size }),
            Routine::LeftOrRight,
            seq![Some(expr), Some(size)],
        ),
{
    lemma_calls(
        scope,
        (Function::Left { expr, size }),
        Routine::LeftOrRight,
        seq![Some(expr), Some(size)],
    );
    lemma_calls(
        scope,
        (Function::Right { expr, size }),
        Routine::LeftOrRight,
        seq![Some(expr), Some(size)],
    );
}

/// `REPEAT` takes the text and then how often.
pub proof fn law_repeat(scope: Scope, expr: Expr, num: Expr)
    ensures
        calls(
            scope,
            (Function::Repeat { expr, num }),
            Routine::Repeat,
            seq![Some(expr), Some(num)],
        ),
{
    lemma_calls(
        scope,
        (Function::Repeat { expr, num }),
        Routine::Repeat,
        seq![Some(expr), Some(num)],
    );
}

/// `UNWRAP` takes the value and then the selector.
pub proof fn law_unwrap(scope: Scope, expr: Expr, selector: Expr)
    ensures
        calls(
            scope,
            (Function::Unwrap { expr, selector }),
            Routine::Unwrap,
            seq![Some(expr), Some(selector)],
        ),
{
    lemma_calls(
        scope,
        (Function::Unwrap { expr, selector }),
        Routine::Unwrap,
        seq![Some(expr), Some(selector)],
    );
}

/// `FORMAT`, `TO_DATE`, `TO_TIMESTAMP` and `TO_TIME` take the value and then the format.
pub proof fn law_formats(scope: Scope, expr: Expr, format: Expr)
    ensures
        calls(
            scope,
            (Function::Format { expr, format }),
            Routine::Format,
            seq![Some(expr), Some(format)],
        ),
        calls(
            scope,
            (Function::ToDate { expr, format }),
            Routine::ToDate,
            seq![Some(expr), Some(format)],
        ),
        calls(
            scope,
            (Function::ToTimestamp { expr, format }),
            Routine::ToTimestamp,
            seq![Some(expr), Some(format)],
        ),
        calls(
            scope,
            (Function::ToTime { expr, format }),
            Routine::ToTime,
            seq![Some(expr), Some(format)],
        ),
{
    lemma_calls(
        scope,
        (Function::Format { expr, format }),
        Routine::Format,
        seq![Some(expr), Some(format)],
    );
    lemma_calls(
        scope,
        (Function::ToDate { expr, format }),
        Routine::ToDate,
        seq![Some(expr), Some(format)],
    );
    lemma_calls(
        scope,
        (Function::ToTimestamp { expr, format }),
        Routine::ToTimestamp,
        seq![Some(expr), Some(format)],
    );
    lemma_calls(
        scope,
        (Function::ToTime { expr, format }),
        Routine::ToTime,
        seq![Some(expr), Some(format)],
    );
}

/// `POSITION` takes the text and then what is looked for in it.
pub proof fn law_position(scope: Scope, from_expr: Expr, sub_expr: Expr)
    ensures
        calls(
            scope,
            (Function::Position { from_expr, sub_expr }),
            Routine::Position,
            seq![Some(from_expr), Some(sub_expr)],
        ),
{
    lemma_calls(
        scope,
        (Function::Position { from_expr, sub_expr }),
        Routine::Position,
        seq![Some(from_expr), Some(sub_expr)],
    );
}

/// `APPEND` takes the list and then the value.
pub proof fn law_append(scope: Scope, expr: Expr, value: Expr)
    ensures
        calls(
            scope,
            (Function::Append { expr, value }),
            Routine::Append,
            seq![Some(expr), Some(value)],
        ),
{
    lemma_calls(
        scope,
        (Function::Append { expr, value }),
        Routine::Append,
        seq![Some(expr), Some(value)],
    );
}

/// `LPAD` and `RPAD` take the text, the size and, where it is there, what to fill with.
pub proof fn law_lpad_and_rpad(scope: Scope, expr: Expr, size: Expr, fill: Option<Expr>)
    ensures
        calls(
            scope,
            (Function::Lpad { expr, size, fill }),
            Routine::LpadOrRpad,
            seq![Some(expr), Some(size), fill],
        ),
        calls(
            scope,
            (Function::Rpad { expr, size, fill }),
            Routine::LpadOrRpad,
            seq![Some(expr), Some(size), fill],
        ),
{
    lemma_calls(
        scope,
        (Function::Lpad { expr, size, fill }),
        Routine::LpadOrRpad,
        seq![Some(expr), Some(size), fill],
    );
    lemma_calls(
        scope,
        (Function::Rpad { expr, size, fill }),
        Routine::LpadOrRpad,
        seq![Some(expr), Some(size), fill],
    );
}

/// `SUBSTR` takes the text, the start and, where it is there, the count.
pub proof fn law_substr(scope: Scope, expr: Expr, start: Expr, count: Option<Expr>)
    ensures
        calls(
            scope,
            (Function::Substr { expr, start, count }),
            Routine::Substr,
            seq![Some(expr), Some(start), count],
        ),
{
    lemma_calls(
        scope,
        (Function::Substr { expr, start, count }),
        Routine::Substr,
        seq![Some(expr), Some(start), count],
    );
}

/// `FIND_IDX` takes the text, what is looked for and, where it is there, the start.
pub proof fn law_find_idx(
    scope: Scope,
    from_expr: Expr,
    sub_expr: Expr,
    start: Option<Expr>,
)
    ensures
        calls(
            scope,
            (Function::FindIdx { from_expr, sub_expr, start }),
            Routine::FindIdx,
            seq![Some(from_expr), Some(sub_expr), start],
        ),
{
    lemma_calls(
        scope,
        (Function::FindIdx { from_expr, sub_expr, start }),
        Routine::FindIdx,
        seq![Some(from_expr), Some(sub_expr), start],
    );
}

/// `TRIM` takes the text and, where they are there, the characters. It hands on the side.
pub proof fn law_trim(
    scope: Scope,
    expr: Expr,
    filter_chars: Option<Expr>,
    trim_where_field: Option<TrimWhereField>,
)
    ensures
        calls(
            scope,
            (Function::Trim { expr, filter_chars, trim_where_field }),
            Routine::Trim(trim_where_field),
            seq![Some(expr), filter_chars],
        ),
{
    lemma_calls(
        scope,
        (Function::Trim { expr, filter_chars, trim_where_field }),
        Routine::Trim(trim_where_field),
        seq![Some(expr), filter_chars],
    );
}

/// `LTRIM` and `RTRIM` take the text and, where they are there, the characters.
pub proof fn law_ltrim_and_rtrim(scope: Scope, expr: Expr, chars: Option<Expr>)
    ensures
        calls(scope, (Function::Ltrim { expr, chars }), Routine::Ltrim, seq![Some(expr), chars]),
        calls(scope, (Function::Rtrim { expr, chars }), Routine::Rtrim, seq![Some(expr), chars]),
{
    lemma_calls(scope, (Function::Ltrim { expr, chars }), Routine::Ltrim, seq![Some(expr), chars]);
    lemma_calls(scope, (Function::Rtrim { expr, chars }), Routine::Rtrim, seq![Some(expr), chars]);
}

/// `RAND` takes the seed, where it is there.
pub proof fn law_rand(scope: Scope, seed: Option<Expr>)
    ensures
        calls(scope, Function::Rand(seed), Routine::Rand, seq![seed]),
{
    lemma_calls(scope, Function::Rand(seed), Routine::Rand, seq![seed]);
}

/// `CONCAT` takes its texts from left to right.
pub proof fn law_concat(scope: Scope, exprs: Vec<Expr>)
    ensures
        calls(
            scope,
            Function::Concat(exprs),
            Routine::Concat,
            Seq::new(exprs@.len(), |i: int| Some(exprs@[i])),
        ),
{
    lemma_calls(
        scope,
        Function::Concat(exprs),
        Routine::Concat,
        Seq::new(exprs@.len(), |i: int| Some(exprs@[i])),
    );
}

/// `CONCAT_WS` takes the separator and then its texts from left to right.
pub proof fn law_concat_ws(scope: Scope, separator: Expr, exprs: Vec<Expr>)
    ensures
        calls(
            scope,
            (Function::ConcatWs { separator, exprs }),
            Routine::ConcatWs,
            seq![Some(separator)] + Seq::new(exprs@.len(), |i: int| Some(exprs@[i])),
        ),
{
    lemma_calls(
        scope,
        (Function::ConcatWs { separator, exprs }),
        Routine::ConcatWs,
        seq![Some(separator)] + Seq::new(exprs@.len(), |i: int| Some(exprs@[i])),
    );
}

} // verus!
