//! The evaluator: consumes a postfix sequence and produces a single integer
//! by simulating a stack machine, with checked arithmetic throughout.

use vstd::prelude::*;
use crate::stack::Stack;
use crate::units::CalUnit;
use crate::units::ExpressionError;
use crate::units::Operator;

verus! {

/// Integer division truncating toward zero.
pub open spec fn trunc_div(x: int, d: int) -> int {
    if x == 0 {
        0
    } else if x > 0 && d > 0 {
        x / d
    } else if x < 0 && d < 0 {
        (x * -1) / (d * -1)
    } else if x < 0 {
        ((x * -1) / d) * -1
    } else {
        (x / (d * -1)) * -1
    }
}

/// What one operator yields on its two operands: the checked `i64` result,
/// or the arithmetic error. A bracket marker is not evaluable; applying one
/// is a malformed sequence.
pub open spec fn apply_op(op: Operator, lhs: i64, rhs: i64) -> Result<i64, ExpressionError> {
    match op {
        Operator::Plus => {
            if lhs + rhs > i64::MAX || lhs + rhs < i64::MIN {
                Err(ExpressionError::NumericOverflow)
            } else {
                Ok((lhs + rhs) as i64)
            }
        },
        Operator::Sub => {
            if lhs - rhs > i64::MAX || lhs - rhs < i64::MIN {
                Err(ExpressionError::NumericOverflow)
            } else {
                Ok((lhs - rhs) as i64)
            }
        },
        Operator::Mul => {
            if lhs * rhs > i64::MAX || lhs * rhs < i64::MIN {
                Err(ExpressionError::NumericOverflow)
            } else {
                Ok((lhs * rhs) as i64)
            }
        },
        Operator::Div => {
            if rhs == 0 {
                Err(ExpressionError::DivisionByZero)
            } else {
                let q = trunc_div(lhs as int, rhs as int);
                if q < i64::MIN || q > i64::MAX {
                    Err(ExpressionError::NumericOverflow)
                } else {
                    Ok(q as i64)
                }
            }
        },
        Operator::LeftBracket => Err(ExpressionError::MalformedOperand),
    }
}

/// One run of the stack machine over the remaining units, with the values
/// already on the stack in `st`: a number is pushed; an operator pops the
/// right-hand then the left-hand operand and pushes its result. At the end
/// exactly one value must remain.
pub open spec fn spec_evaluate_loop(units: Seq<CalUnit>, st: Seq<i64>) -> Result<
    i64,
    ExpressionError,
>
    decreases units.len(),
{
    if units.len() == 0 {
        if st.len() == 1 {
            Ok(st[0])
        } else {
            Err(ExpressionError::MalformedResult)
        }
    } else {
        match units[0] {
            CalUnit::Num(n) => spec_evaluate_loop(units.drop_first(), st.push(n)),
            CalUnit::Operator(op) => {
                if st.len() < 2 {
                    Err(ExpressionError::MalformedOperand)
                } else {
                    let rhs = st[st.len() - 1];
                    let lhs = st[st.len() - 2];
                    match apply_op(op, lhs, rhs) {
                        Ok(v) => spec_evaluate_loop(
                            units.drop_first(),
                            st.drop_last().drop_last().push(v),
                        ),
                        Err(e) => Err(e),
                    }
                }
            },
        }
    }
}

/// Evaluation of a postfix sequence from an empty stack.
pub open spec fn spec_evaluate(units: Seq<CalUnit>) -> Result<i64, ExpressionError> {
    spec_evaluate_loop(units, Seq::empty())
}

fn apply_op_exec(op: Operator, lhs: i64, rhs: i64) -> (r: Result<i64, ExpressionError>)
    ensures
        r == apply_op(op, lhs, rhs),
{
    match op {
        Operator::Plus => match lhs.checked_add(rhs) {
            Some(v) => Ok(v),
            None => Err(ExpressionError::NumericOverflow),
        },
        Operator::Sub => match lhs.checked_sub(rhs) {
            Some(v) => Ok(v),
            None => Err(ExpressionError::NumericOverflow),
        },
        Operator::Mul => match lhs.checked_mul(rhs) {
            Some(v) => Ok(v),
            None => Err(ExpressionError::NumericOverflow),
        },
        Operator::Div => {
            if rhs == 0 {
                Err(ExpressionError::DivisionByZero)
            } else {
                match lhs.checked_div(rhs) {
                    Some(v) => Ok(v),
                    None => Err(ExpressionError::NumericOverflow),
                }
            }
        },
        Operator::LeftBracket => Err(ExpressionError::MalformedOperand),
    }
}

/// Evaluates a postfix sequence left to right with a stack machine and
/// returns the single remaining value, or the first error: an operator short
/// of operands, division by zero, an overflowing arithmetic step, or a final
/// stack that does not hold exactly one value.
pub fn evaluate(units: &Stack) -> (r: Result<i64, ExpressionError>)
    ensures
        r == spec_evaluate(units@),
{
    let ghost us = units@;
    let mut st: Vec<i64> = Vec::new();
    let mut i: usize = 0;
    proof {
        assert(us.skip(0) =~= us);
    }
    while i < units.stack.len()
        invariant
            us == units@,
            0 <= i <= us.len(),
            spec_evaluate(us) == spec_evaluate_loop(us.skip(i as int), st@),
        decreases us.len() - i,
    {
        let ghost skipi = us.skip(i as int);
        proof {
            assert(skipi[0] == us[i as int]);
            assert(skipi.drop_first() =~= us.skip(i as int + 1));
        }
        let u = units.stack[i];
        match u {
            CalUnit::Num(n) => {
                st.push(n);
            },
            CalUnit::Operator(op) => {
                if st.len() < 2 {
                    return Err(ExpressionError::MalformedOperand);
                }
                let rhs = st[st.len() - 1];
                let lhs = st[st.len() - 2];
                let ghost stold = st@;
                let _ = st.pop();
                let _ = st.pop();
                proof {
                    assert(st@ =~= stold.drop_last().drop_last());
                }
                match apply_op_exec(op, lhs, rhs) {
                    Ok(v) => {
                        st.push(v);
                    },
                    Err(e) => {
                        return Err(e);
                    },
                }
            },
        }
        i += 1;
    }
    proof {
        assert(us.skip(us.len() as int) =~= Seq::<CalUnit>::empty());
    }
    if st.len() == 1 {
        Ok(st[0])
    } else {
        Err(ExpressionError::MalformedResult)
    }
}

} // verus!
