//! The boundary of the core: one call takes a line of text through
//! tokenization, conversion and evaluation and returns the integer value or
//! the first error met on the way.

use vstd::prelude::*;
use crate::convert::convert;
use crate::convert::drain_all;
use crate::convert::has_left_bracket;
use crate::convert::spec_convert;
use crate::convert::spec_convert_loop;
use crate::eval::evaluate;
use crate::eval::spec_evaluate;
use crate::eval::spec_evaluate_loop;
use crate::tokens::digits_value;
use crate::tokens::is_digit_char;
use crate::tokens::lemma_all_digits_tokenize;
use crate::tokens::lemma_digits_value_nonneg;
use crate::tokens::spec_tokenize;
use crate::tokens::token_views;
use crate::tokens::tokenize;
use crate::tokens::TokenModel;
use crate::units::CalUnit;
use crate::units::ExpressionError;
use crate::units::Operator;

verus! {

/// The value of a line of text: its tokens converted to postfix and the
/// postfix sequence evaluated, or the first error of either stage.
pub open spec fn spec_calculate(s: Seq<char>) -> Result<i64, ExpressionError> {
    match spec_convert(spec_tokenize(s)) {
        Ok(units) => spec_evaluate(units),
        Err(e) => Err(e),
    }
}

/// Evaluates one line of text: tokenize, convert to postfix, run the stack
/// machine. Any text is accepted; the result is the value of the expression
/// it spells, or the first error met.
pub fn calculate(input: &String) -> (r: Result<i64, ExpressionError>)
    ensures
        r == spec_calculate(input@),
{
    let toks = tokenize(input.as_str());
    match convert(&toks) {
        Ok(rpn) => {
            proof {
                assert(token_views(toks@) == spec_tokenize(input@));
            }
            evaluate(&rpn)
        },
        Err(e) => Err(e),
    }
}

/// The single boundary function of the core: evaluates one line of input
/// text and returns the computed integer or a tagged error.
pub fn evaluate_expression(line: String) -> (r: Result<i64, ExpressionError>)
    ensures
        r == spec_calculate(line@),
{
    calculate(&line)
}

/// A line consisting solely of a single non-negative integer literal
/// evaluates to that integer, whenever it fits in an `i64`.
pub proof fn lemma_single_literal_evaluates(s: Seq<char>)
    requires
        s.len() > 0,
        forall|i: int| 0 <= i < s.len() ==> is_digit_char(s[i]),
        digits_value(s) <= i64::MAX,
    ensures
        spec_calculate(s) == Ok::<i64, ExpressionError>(digits_value(s) as i64),
{
    lemma_all_digits_tokenize(s);
    lemma_digits_value_nonneg(s);
    let v = digits_value(s) as i64;
    let toks = seq![TokenModel::Int(s)];
    let units = seq![CalUnit::Num(v)];
    let e_ops = Seq::<Operator>::empty();
    let e_out = Seq::<CalUnit>::empty();
    assert(toks[0] == TokenModel::Int(s));
    assert(toks.drop_first() =~= Seq::<TokenModel>::empty());
    assert(e_out.push(CalUnit::Num(v)) =~= units);
    assert(spec_convert_loop(toks, e_ops, e_out) == spec_convert_loop(
        Seq::<TokenModel>::empty(),
        e_ops,
        units,
    ));
    assert(!has_left_bracket(e_ops));
    assert(drain_all(e_ops) == Seq::<CalUnit>::empty());
    assert(units + drain_all(e_ops) =~= units);
    assert(spec_convert(toks) == Ok::<Seq<CalUnit>, ExpressionError>(units));
    assert(units.drop_first() =~= Seq::<CalUnit>::empty());
    assert(Seq::<i64>::empty().push(v) =~= seq![v]);
    assert(spec_evaluate_loop(units, Seq::<i64>::empty()) == spec_evaluate_loop(
        Seq::<CalUnit>::empty(),
        seq![v],
    ));
    assert(spec_evaluate_loop(Seq::<CalUnit>::empty(), seq![v]) == Ok::<i64, ExpressionError>(v));
    assert(spec_evaluate(units) == Ok::<i64, ExpressionError>(v));
}

/// Re-evaluating the same line yields the same result: the outcome is a
/// function of the text alone, with no hidden state between calls.
pub proof fn lemma_reevaluation_stable(first: Seq<char>, second: Seq<char>)
    requires
        first == second,
    ensures
        spec_calculate(first) == spec_calculate(second),
{
}

} // verus!
