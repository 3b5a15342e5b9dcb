//! Shared data types of the pipeline: operators, postfix calculation units,
//! and the error taxonomy.

use vstd::prelude::*;

verus! {

/// An operator that the converter stages. `LeftBracket` is a scoping marker:
/// it may sit on the staging stack while a parenthesised group is open, but a
/// finished postfix sequence never contains it.
#[derive(Clone, Copy, Debug, PartialEq, Eq, Structural)]
pub enum Operator {
    Plus,
    Sub,
    Mul,
    Div,
    LeftBracket,
}

/// One unit of a postfix (reverse Polish) sequence: a number, or an operator
/// applied to the two values below it on the evaluation stack.
#[derive(Clone, Copy, Debug, PartialEq, Eq, Structural)]
pub enum CalUnit {
    Num(i64),
    Operator(Operator),
}

/// Everything that can go wrong between a line of text and its value. Each
/// stage fails fast with the first error it meets.
#[derive(Clone, Copy, Debug, PartialEq, Eq, Structural)]
pub enum ExpressionError {
    /// A `)` arrived with no open bracket staged.
    UnmatchedCloseBracket,
    /// A `(` was still staged after all tokens were consumed.
    UnmatchedOpenBracket,
    /// An operator had fewer than two operands, or a bracket marker leaked
    /// into the postfix sequence.
    MalformedOperand,
    /// A literal or an intermediate result does not fit in an `i64`.
    NumericOverflow,
    /// A `/` was applied with a zero right-hand operand.
    DivisionByZero,
    /// Evaluation finished with zero or more than one value on the stack.
    MalformedResult,
}

} // verus!
