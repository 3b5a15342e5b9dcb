//! The ordered container of calculation units that the converter fills: the
//! postfix output grows at its end, and the staging logic reads and removes
//! the most recently added unit first.

use vstd::prelude::*;
use vstd::string::*;
use crate::tokens::digits_value;
use crate::tokens::is_digit_char;
use crate::tokens::parse_literal;
use crate::units::CalUnit;
use crate::units::ExpressionError;
use crate::units::Operator;

verus! {

/// A last-in-first-out sequence of calculation units.
#[derive(Debug, PartialEq, Eq)]
pub struct Stack {
    pub stack: Vec<CalUnit>,
}

impl View for Stack {
    type V = Seq<CalUnit>;

    open spec fn view(&self) -> Seq<CalUnit> {
        self.stack@
    }
}

/// The unit that `push_str` stages for a one-character operator text, if any.
pub open spec fn staged_operator(s: Seq<char>) -> Option<Operator> {
    if s.len() == 1 {
        if s[0] == '+' {
            Some(Operator::Plus)
        } else if s[0] == '-' {
            Some(Operator::Sub)
        } else if s[0] == '*' {
            Some(Operator::Mul)
        } else if s[0] == '/' {
            Some(Operator::Div)
        } else if s[0] == '(' {
            Some(Operator::LeftBracket)
        } else {
            None
        }
    } else {
        None
    }
}

/// A nonempty text made of decimal digits only.
pub open spec fn is_digit_run(s: Seq<char>) -> bool {
    s.len() > 0 && (forall|i: int| 0 <= i < s.len() ==> is_digit_char(s[i]))
}

impl Stack {
    /// An empty stack.
    pub fn new() -> (r: Stack)
        ensures
            r@ == Seq::<CalUnit>::empty(),
    {
        let v: Vec<CalUnit> = Vec::new();
        proof {
            assert(v@ =~= Seq::<CalUnit>::empty());
        }
        Stack { stack: v }
    }

    /// Classifies a one-token text and pushes the unit it stands for: one of
    /// `+ - * / (` becomes that operator, a run of digits becomes a number.
    /// A digit run too large for an `i64` is a reported overflow and leaves
    /// the stack unchanged.
    pub fn push_str(&mut self, t: &str) -> (r: Result<(), ExpressionError>)
        requires
            staged_operator(t@) is Some || is_digit_run(t@),
        ensures
            staged_operator(t@) matches Some(op) ==> r is Ok && final(self)@ == old(self)@.push(
                CalUnit::Operator(op),
            ),
            staged_operator(t@) is None && digits_value(t@) <= i64::MAX ==> r is Ok
                && final(self)@ == old(self)@.push(CalUnit::Num(digits_value(t@) as i64)),
            staged_operator(t@) is None && digits_value(t@) > i64::MAX ==> r == Err::<
                (),
                ExpressionError,
            >(ExpressionError::NumericOverflow) && final(self)@ == old(self)@,
    {
        let n = t.unicode_len();
        if n == 1 {
            let c = t.get_char(0);
            if c == '+' {
                self.stack.push(CalUnit::Operator(Operator::Plus));
                return Ok(());
            } else if c == '-' {
                self.stack.push(CalUnit::Operator(Operator::Sub));
                return Ok(());
            } else if c == '*' {
                self.stack.push(CalUnit::Operator(Operator::Mul));
                return Ok(());
            } else if c == '/' {
                self.stack.push(CalUnit::Operator(Operator::Div));
                return Ok(());
            } else if c == '(' {
                self.stack.push(CalUnit::Operator(Operator::LeftBracket));
                return Ok(());
            }
        }
        let mut ds: Vec<char> = Vec::new();
        let mut i: usize = 0;
        while i < n
            invariant
                n == t@.len(),
                0 <= i <= n,
                ds@ == t@.take(i as int),
            decreases n - i,
        {
            let c = t.get_char(i);
            ds.push(c);
            proof {
                assert(ds@ =~= t@.take(i as int + 1));
            }
            i += 1;
        }
        proof {
            assert(ds@ =~= t@);
        }
        match parse_literal(&ds) {
            Ok(v) => {
                self.stack.push(CalUnit::Num(v));
                Ok(())
            },
            Err(e) => Err(e),
        }
    }

    /// Adds one unit at the top.
    pub fn push(&mut self, t: CalUnit)
        ensures
            final(self)@ == old(self)@.push(t),
    {
        self.stack.push(t);
    }

    /// The unit most recently added, if any, without removing it.
    pub fn last(&self) -> (r: Option<CalUnit>)
        ensures
            self@.len() == 0 ==> r is None,
            self@.len() > 0 ==> r == Some(self@.last()),
    {
        if self.stack.len() == 0 {
            None
        } else {
            Some(self.stack[self.stack.len() - 1])
        }
    }

    /// Removes and returns the unit most recently added, if any.
    pub fn pop(&mut self) -> (r: Option<CalUnit>)
        ensures
            old(self)@.len() == 0 ==> r is None && final(self)@ == old(self)@,
            old(self)@.len() > 0 ==> r == Some(old(self)@.last())
                && final(self)@ == old(self)@.drop_last(),
    {
        self.stack.pop()
    }

    /// Whether the stack holds no unit.
    pub fn is_empty(&self) -> (r: bool)
        ensures
            r == (self@.len() == 0),
    {
        self.stack.is_empty()
    }
}

} // verus!
