//! The converter: consumes the token sequence and produces a postfix
//! (reverse Polish) sequence of calculation units by the shunting-yard
//! algorithm, staging operators on a transient stack and flushing them
//! according to precedence and bracket scope.

use vstd::prelude::*;
use crate::stack::Stack;
use crate::tokens::digits_value;
use crate::tokens::token_views;
use crate::tokens::Symbol;
use crate::tokens::Token;
use crate::tokens::TokenModel;
use crate::units::CalUnit;
use crate::units::ExpressionError;
use crate::units::Operator;

verus! {

/// Whether a left bracket is staged anywhere on the operator stack.
pub open spec fn has_left_bracket(ops: Seq<Operator>) -> bool {
    exists|j: int| 0 <= j < ops.len() && ops[j] == Operator::LeftBracket
}

/// Flushing before `+` or `-` is staged: every operator above the nearest
/// left bracket leaves the stack, in pop order. The result is the remaining
/// stack and the emitted units.
pub open spec fn flush_low(ops: Seq<Operator>) -> (Seq<Operator>, Seq<CalUnit>)
    decreases ops.len(),
{
    if ops.len() == 0 || ops.last() == Operator::LeftBracket {
        (ops, Seq::empty())
    } else {
        let r = flush_low(ops.drop_last());
        (r.0, seq![CalUnit::Operator(ops.last())] + r.1)
    }
}

/// Flushing before `*` or `/` is staged: only `Mul` and `Div` at the top of
/// the stack leave, in pop order.
pub open spec fn flush_muldiv(ops: Seq<Operator>) -> (Seq<Operator>, Seq<CalUnit>)
    decreases ops.len(),
{
    if ops.len() > 0 && (ops.last() == Operator::Mul || ops.last() == Operator::Div) {
        let r = flush_muldiv(ops.drop_last());
        (r.0, seq![CalUnit::Operator(ops.last())] + r.1)
    } else {
        (ops, Seq::empty())
    }
}

/// Flushing on `)`: operators leave the stack in pop order until the nearest
/// left bracket, which is discarded. An empty stack before a bracket is found
/// is an unmatched closing bracket.
pub open spec fn flush_to_bracket(ops: Seq<Operator>) -> Result<
    (Seq<Operator>, Seq<CalUnit>),
    ExpressionError,
>
    decreases ops.len(),
{
    if ops.len() == 0 {
        Err(ExpressionError::UnmatchedCloseBracket)
    } else if ops.last() == Operator::LeftBracket {
        Ok((ops.drop_last(), Seq::empty()))
    } else {
        match flush_to_bracket(ops.drop_last()) {
            Ok(r) => Ok((r.0, seq![CalUnit::Operator(ops.last())] + r.1)),
            Err(e) => Err(e),
        }
    }
}

/// The whole remaining stack emitted in pop order, as it is drained after the
/// last token.
pub open spec fn drain_all(ops: Seq<Operator>) -> Seq<CalUnit>
    decreases ops.len(),
{
    if ops.len() == 0 {
        Seq::empty()
    } else {
        seq![CalUnit::Operator(ops.last())] + drain_all(ops.drop_last())
    }
}

/// One run of the shunting-yard algorithm over the remaining tokens, with
/// the operators currently staged in `ops` and the postfix units already
/// emitted in `out`.
pub open spec fn spec_convert_loop(
    toks: Seq<TokenModel>,
    ops: Seq<Operator>,
    out: Seq<CalUnit>,
) -> Result<Seq<CalUnit>, ExpressionError>
    decreases toks.len(),
{
    if toks.len() == 0 {
        if has_left_bracket(ops) {
            Err(ExpressionError::UnmatchedOpenBracket)
        } else {
            Ok(out + drain_all(ops))
        }
    } else {
        match toks[0] {
            TokenModel::Int(d) => {
                if digits_value(d) <= i64::MAX {
                    spec_convert_loop(
                        toks.drop_first(),
                        ops,
                        out.push(CalUnit::Num(digits_value(d) as i64)),
                    )
                } else {
                    Err(ExpressionError::NumericOverflow)
                }
            },
            TokenModel::Sym(s) => match s {
                Symbol::Plus => {
                    let f = flush_low(ops);
                    spec_convert_loop(toks.drop_first(), f.0.push(Operator::Plus), out + f.1)
                },
                Symbol::Minus => {
                    let f = flush_low(ops);
                    spec_convert_loop(toks.drop_first(), f.0.push(Operator::Sub), out + f.1)
                },
                Symbol::Star => {
                    let f = flush_muldiv(ops);
                    spec_convert_loop(toks.drop_first(), f.0.push(Operator::Mul), out + f.1)
                },
                Symbol::Slash => {
                    let f = flush_muldiv(ops);
                    spec_convert_loop(toks.drop_first(), f.0.push(Operator::Div), out + f.1)
                },
                Symbol::Open => {
                    spec_convert_loop(toks.drop_first(), ops.push(Operator::LeftBracket), out)
                },
                Symbol::Close => {
                    match flush_to_bracket(ops) {
                        Ok(f) => spec_convert_loop(toks.drop_first(), f.0, out + f.1),
                        Err(e) => Err(e),
                    }
                },
            },
        }
    }
}

/// Conversion of a token sequence to its postfix sequence, or the first
/// error: an unmatched bracket on either side, or a literal that does not
/// fit in an `i64`.
pub open spec fn spec_convert(toks: Seq<TokenModel>) -> Result<Seq<CalUnit>, ExpressionError> {
    spec_convert_loop(toks, Seq::empty(), Seq::empty())
}

/// No unit of `units` is the left-bracket marker.
pub open spec fn bracket_free(units: Seq<CalUnit>) -> bool {
    forall|i: int| 0 <= i < units.len() ==> units[i] != CalUnit::Operator(Operator::LeftBracket)
}

proof fn lemma_bracket_free_concat(a: Seq<CalUnit>, b: Seq<CalUnit>)
    requires
        bracket_free(a),
        bracket_free(b),
    ensures
        bracket_free(a + b),
{
    assert forall|i: int| 0 <= i < (a + b).len() implies (a + b)[i] != CalUnit::Operator(
        Operator::LeftBracket,
    ) by {
        if i < a.len() {
            assert((a + b)[i] == a[i]);
        } else {
            assert((a + b)[i] == b[i - a.len()]);
        }
    }
}

proof fn lemma_flush_low_bracket_free(ops: Seq<Operator>)
    ensures
        bracket_free(flush_low(ops).1),
    decreases ops.len(),
{
    if ops.len() == 0 || ops.last() == Operator::LeftBracket {
        assert(bracket_free(Seq::<CalUnit>::empty()));
    } else {
        lemma_flush_low_bracket_free(ops.drop_last());
        assert(bracket_free(seq![CalUnit::Operator(ops.last())]));
        lemma_bracket_free_concat(
            seq![CalUnit::Operator(ops.last())],
            flush_low(ops.drop_last()).1,
        );
    }
}

proof fn lemma_flush_muldiv_bracket_free(ops: Seq<Operator>)
    ensures
        bracket_free(flush_muldiv(ops).1),
    decreases ops.len(),
{
    if ops.len() > 0 && (ops.last() == Operator::Mul || ops.last() == Operator::Div) {
        lemma_flush_muldiv_bracket_free(ops.drop_last());
        assert(bracket_free(seq![CalUnit::Operator(ops.last())]));
        lemma_bracket_free_concat(
            seq![CalUnit::Operator(ops.last())],
            flush_muldiv(ops.drop_last()).1,
        );
    } else {
        assert(bracket_free(Seq::<CalUnit>::empty()));
    }
}

proof fn lemma_flush_to_bracket_bracket_free(ops: Seq<Operator>)
    ensures
        flush_to_bracket(ops) matches Ok(f) ==> bracket_free(f.1),
    decreases ops.len(),
{
    if ops.len() == 0 {
    } else if ops.last() == Operator::LeftBracket {
        assert(bracket_free(Seq::<CalUnit>::empty()));
    } else {
        lemma_flush_to_bracket_bracket_free(ops.drop_last());
        if let Ok(r) = flush_to_bracket(ops.drop_last()) {
            assert(bracket_free(seq![CalUnit::Operator(ops.last())]));
            lemma_bracket_free_concat(seq![CalUnit::Operator(ops.last())], r.1);
        }
    }
}

proof fn lemma_drain_all_bracket_free(ops: Seq<Operator>)
    requires
        !has_left_bracket(ops),
    ensures
        bracket_free(drain_all(ops)),
    decreases ops.len(),
{
    if ops.len() == 0 {
        assert(bracket_free(Seq::<CalUnit>::empty()));
    } else {
        assert(ops.last() != Operator::LeftBracket) by {
            if ops.last() == Operator::LeftBracket {
                assert(ops[ops.len() - 1] == Operator::LeftBracket);
                assert(has_left_bracket(ops));
            }
        }
        assert(!has_left_bracket(ops.drop_last())) by {
            if has_left_bracket(ops.drop_last()) {
                let j = choose|j: int|
                    0 <= j < ops.drop_last().len() && ops.drop_last()[j] == Operator::LeftBracket;
                assert(ops[j] == Operator::LeftBracket);
                assert(has_left_bracket(ops));
            }
        }
        lemma_drain_all_bracket_free(ops.drop_last());
        assert(bracket_free(seq![CalUnit::Operator(ops.last())]));
        lemma_bracket_free_concat(seq![CalUnit::Operator(ops.last())], drain_all(ops.drop_last()));
    }
}

proof fn lemma_convert_loop_bracket_free(
    toks: Seq<TokenModel>,
    ops: Seq<Operator>,
    out: Seq<CalUnit>,
    res: Seq<CalUnit>,
)
    requires
        bracket_free(out),
        spec_convert_loop(toks, ops, out) == Ok::<Seq<CalUnit>, ExpressionError>(res),
    ensures
        bracket_free(res),
    decreases toks.len(),
{
    if toks.len() == 0 {
        assert(!has_left_bracket(ops));
        lemma_drain_all_bracket_free(ops);
        lemma_bracket_free_concat(out, drain_all(ops));
    } else {
        match toks[0] {
            TokenModel::Int(d) => {
                if digits_value(d) <= i64::MAX {
                    let out2 = out.push(CalUnit::Num(digits_value(d) as i64));
                    assert(bracket_free(out2)) by {
                        assert forall|i: int| 0 <= i < out2.len() implies out2[i]
                            != CalUnit::Operator(Operator::LeftBracket) by {
                            if i < out.len() {
                                assert(out2[i] == out[i]);
                            }
                        }
                    }
                    lemma_convert_loop_bracket_free(toks.drop_first(), ops, out2, res);
                }
            },
            TokenModel::Sym(s) => match s {
                Symbol::Plus => {
                    lemma_flush_low_bracket_free(ops);
                    lemma_bracket_free_concat(out, flush_low(ops).1);
                    lemma_convert_loop_bracket_free(
                        toks.drop_first(),
                        flush_low(ops).0.push(Operator::Plus),
                        out + flush_low(ops).1,
                        res,
                    );
                },
                Symbol::Minus => {
                    lemma_flush_low_bracket_free(ops);
                    lemma_bracket_free_concat(out, flush_low(ops).1);
                    lemma_convert_loop_bracket_free(
                        toks.drop_first(),
                        flush_low(ops).0.push(Operator::Sub),
                        out + flush_low(ops).1,
                        res,
                    );
                },
                Symbol::Star => {
                    lemma_flush_muldiv_bracket_free(ops);
                    lemma_bracket_free_concat(out, flush_muldiv(ops).1);
                    lemma_convert_loop_bracket_free(
                        toks.drop_first(),
                        flush_muldiv(ops).0.push(Operator::Mul),
                        out + flush_muldiv(ops).1,
                        res,
                    );
                },
                Symbol::Slash => {
                    lemma_flush_muldiv_bracket_free(ops);
                    lemma_bracket_free_concat(out, flush_muldiv(ops).1);
                    lemma_convert_loop_bracket_free(
                        toks.drop_first(),
                        flush_muldiv(ops).0.push(Operator::Div),
                        out + flush_muldiv(ops).1,
                        res,
                    );
                },
                Symbol::Open => {
                    lemma_convert_loop_bracket_free(
                        toks.drop_first(),
                        ops.push(Operator::LeftBracket),
                        out,
                        res,
                    );
                },
                Symbol::Close => {
                    lemma_flush_to_bracket_bracket_free(ops);
                    if let Ok(f) = flush_to_bracket(ops) {
                        lemma_bracket_free_concat(out, f.1);
                        lemma_convert_loop_bracket_free(toks.drop_first(), f.0, out + f.1, res);
                    }
                },
            },
        }
    }
}

/// The converter's output invariant: a left bracket is only ever a transient
/// marker on the staging stack; a successfully converted postfix sequence
/// never contains one.
pub proof fn lemma_converter_never_emits_bracket(toks: Seq<TokenModel>, res: Seq<CalUnit>)
    requires
        spec_convert(toks) == Ok::<Seq<CalUnit>, ExpressionError>(res),
    ensures
        bracket_free(res),
{
    assert(bracket_free(Seq::<CalUnit>::empty()));
    lemma_convert_loop_bracket_free(toks, Seq::empty(), Seq::empty(), res);
}

fn flush_low_exec(ops: &mut Vec<Operator>, out: &mut Stack)
    ensures
        final(ops)@ == flush_low(old(ops)@).0,
        final(out)@ == old(out)@ + flush_low(old(ops)@).1,
{
    let ghost ops0 = ops@;
    let ghost out0 = out@;
    while ops.len() > 0 && ops[ops.len() - 1] != Operator::LeftBracket
        invariant
            out0.len() <= out@.len(),
            out@.take(out0.len() as int) == out0,
            flush_low(ops0).0 == flush_low(ops@).0,
            flush_low(ops0).1 == out@.skip(out0.len() as int) + flush_low(ops@).1,
        decreases ops.len(),
    {
        let ghost opsprev = ops@;
        let ghost outprev = out@;
        let top = ops[ops.len() - 1];
        let _ = ops.pop();
        out.push(CalUnit::Operator(top));
        proof {
            assert(ops@ =~= opsprev.drop_last());
            assert(out@.take(out0.len() as int) =~= outprev.take(out0.len() as int));
            assert(outprev.skip(out0.len() as int) + (seq![CalUnit::Operator(top)] + flush_low(
                ops@,
            ).1) =~= out@.skip(out0.len() as int) + flush_low(ops@).1);
        }
    }
    proof {
        assert(flush_low(ops@) == (ops@, Seq::<CalUnit>::empty()));
        assert(out@.skip(out0.len() as int) + Seq::<CalUnit>::empty() =~= out@.skip(
            out0.len() as int,
        ));
        assert(out0 + out@.skip(out0.len() as int) =~= out@);
    }
}

fn flush_muldiv_exec(ops: &mut Vec<Operator>, out: &mut Stack)
    ensures
        final(ops)@ == flush_muldiv(old(ops)@).0,
        final(out)@ == old(out)@ + flush_muldiv(old(ops)@).1,
{
    let ghost ops0 = ops@;
    let ghost out0 = out@;
    while ops.len() > 0 && (ops[ops.len() - 1] == Operator::Mul || ops[ops.len() - 1]
        == Operator::Div)
        invariant
            out0.len() <= out@.len(),
            out@.take(out0.len() as int) == out0,
            flush_muldiv(ops0).0 == flush_muldiv(ops@).0,
            flush_muldiv(ops0).1 == out@.skip(out0.len() as int) + flush_muldiv(ops@).1,
        decreases ops.len(),
    {
        let ghost opsprev = ops@;
        let ghost outprev = out@;
        let top = ops[ops.len() - 1];
        let _ = ops.pop();
        out.push(CalUnit::Operator(top));
        proof {
            assert(ops@ =~= opsprev.drop_last());
            assert(out@.take(out0.len() as int) =~= outprev.take(out0.len() as int));
            assert(outprev.skip(out0.len() as int) + (seq![CalUnit::Operator(top)] + flush_muldiv(
                ops@,
            ).1) =~= out@.skip(out0.len() as int) + flush_muldiv(ops@).1);
        }
    }
    proof {
        assert(flush_muldiv(ops@) == (ops@, Seq::<CalUnit>::empty()));
        assert(out@.skip(out0.len() as int) + Seq::<CalUnit>::empty() =~= out@.skip(
            out0.len() as int,
        ));
        assert(out0 + out@.skip(out0.len() as int) =~= out@);
    }
}

/// Extends the emitted part of a bracket flush with units already emitted.
spec fn bracket_flush_extend(
    r: Result<(Seq<Operator>, Seq<CalUnit>), ExpressionError>,
    e: Seq<CalUnit>,
) -> Result<(Seq<Operator>, Seq<CalUnit>), ExpressionError> {
    match r {
        Ok(f) => Ok((f.0, e + f.1)),
        Err(err) => Err(err),
    }
}

fn flush_bracket_exec(ops: &mut Vec<Operator>, out: &mut Stack) -> (r: Result<
    (),
    ExpressionError,
>)
    ensures
        flush_to_bracket(old(ops)@) matches Ok(f) ==> r is Ok && final(ops)@ == f.0 && final(out)@
            == old(out)@ + f.1,
        flush_to_bracket(old(ops)@) matches Err(e) ==> r == Err::<(), ExpressionError>(e),
{
    let ghost ops0 = ops@;
    let ghost out0 = out@;
    while ops.len() > 0 && ops[ops.len() - 1] != Operator::LeftBracket
        invariant
            out0.len() <= out@.len(),
            out@.take(out0.len() as int) == out0,
            flush_to_bracket(ops0) == bracket_flush_extend(
                flush_to_bracket(ops@),
                out@.skip(out0.len() as int),
            ),
        decreases ops.len(),
    {
        let ghost opsprev = ops@;
        let ghost outprev = out@;
        let top = ops[ops.len() - 1];
        let _ = ops.pop();
        out.push(CalUnit::Operator(top));
        proof {
            assert(ops@ =~= opsprev.drop_last());
            assert(out@.take(out0.len() as int) =~= outprev.take(out0.len() as int));
            if let Ok(f) = flush_to_bracket(ops@) {
                assert(outprev.skip(out0.len() as int) + (seq![CalUnit::Operator(top)] + f.1)
                    =~= out@.skip(out0.len() as int) + f.1);
            }
        }
    }
    if ops.len() == 0 {
        return Err(ExpressionError::UnmatchedCloseBracket);
    }
    let ghost opsprev = ops@;
    let _ = ops.pop();
    proof {
        assert(flush_to_bracket(opsprev) == Ok::<(Seq<Operator>, Seq<CalUnit>), ExpressionError>(
            (opsprev.drop_last(), Seq::empty()),
        ));
        assert(ops@ =~= opsprev.drop_last());
        assert(out@.skip(out0.len() as int) + Seq::<CalUnit>::empty() =~= out@.skip(
            out0.len() as int,
        ));
        assert(out0 + out@.skip(out0.len() as int) =~= out@);
    }
    Ok(())
}

fn drain_exec(ops: &mut Vec<Operator>, out: &mut Stack) -> (r: Result<(), ExpressionError>)
    ensures
        !has_left_bracket(old(ops)@) ==> r is Ok && final(out)@ == old(out)@ + drain_all(
            old(ops)@,
        ),
        has_left_bracket(old(ops)@) ==> r == Err::<(), ExpressionError>(
            ExpressionError::UnmatchedOpenBracket,
        ),
{
    let ghost ops0 = ops@;
    let ghost out0 = out@;
    while ops.len() > 0
        invariant
            ops0 == old(ops)@,
            out0.len() <= out@.len(),
            out@.take(out0.len() as int) == out0,
            has_left_bracket(ops0) == has_left_bracket(ops@),
            !has_left_bracket(ops0) ==> drain_all(ops0) == out@.skip(out0.len() as int)
                + drain_all(ops@),
        decreases ops.len(),
    {
        let ghost opsprev = ops@;
        let ghost outprev = out@;
        let top = ops[ops.len() - 1];
        let _ = ops.pop();
        proof {
            assert(ops@ =~= opsprev.drop_last());
        }
        if top == Operator::LeftBracket {
            proof {
                assert(opsprev[opsprev.len() - 1] == Operator::LeftBracket);
                assert(has_left_bracket(opsprev));
            }
            return Err(ExpressionError::UnmatchedOpenBracket);
        }
        out.push(CalUnit::Operator(top));
        proof {
            if has_left_bracket(opsprev) {
                let j = choose|j: int|
                    0 <= j < opsprev.len() && opsprev[j] == Operator::LeftBracket;
                assert(ops@[j] == Operator::LeftBracket);
                assert(has_left_bracket(ops@));
            }
            if has_left_bracket(ops@) {
                let j = choose|j: int| 0 <= j < ops@.len() && ops@[j] == Operator::LeftBracket;
                assert(opsprev[j] == Operator::LeftBracket);
                assert(has_left_bracket(opsprev));
            }
            assert(out@.take(out0.len() as int) =~= outprev.take(out0.len() as int));
            if !has_left_bracket(ops0) {
                assert(outprev.skip(out0.len() as int) + (seq![CalUnit::Operator(top)]
                    + drain_all(ops@)) =~= out@.skip(out0.len() as int) + drain_all(ops@));
            }
        }
    }
    proof {
        assert(!has_left_bracket(ops@));
        assert(drain_all(ops@) == Seq::<CalUnit>::empty());
        assert(out@.skip(out0.len() as int) + Seq::<CalUnit>::empty() =~= out@.skip(
            out0.len() as int,
        ));
        assert(out0 + out@.skip(out0.len() as int) =~= out@);
    }
    Ok(())
}

/// Converts a token sequence to its postfix sequence, or reports the first
/// error: a literal too large for an `i64`, or an unmatched bracket on
/// either side.
pub fn convert(tokens: &Vec<Token>) -> (r: Result<Stack, ExpressionError>)
    ensures
        r matches Ok(st) ==> spec_convert(token_views(tokens@)) == Ok::<
            Seq<CalUnit>,
            ExpressionError,
        >(st@),
        r matches Err(e) ==> spec_convert(token_views(tokens@)) == Err::<
            Seq<CalUnit>,
            ExpressionError,
        >(e),
{
    let ghost toks = token_views(tokens@);
    let mut ops: Vec<Operator> = Vec::new();
    let mut out = Stack::new();
    let mut i: usize = 0;
    proof {
        assert(toks.skip(0) =~= toks);
    }
    while i < tokens.len()
        invariant
            toks == token_views(tokens@),
            0 <= i <= tokens.len(),
            spec_convert(toks) == spec_convert_loop(toks.skip(i as int), ops@, out@),
        decreases tokens.len() - i,
    {
        let ghost skipi = toks.skip(i as int);
        proof {
            assert(skipi[0] == toks[i as int]);
            assert(toks[i as int] == tokens@[i as int]@);
            assert(skipi.drop_first() =~= toks.skip(i as int + 1));
        }
        match &tokens[i] {
            Token::IntLiteral(d) => {
                match parse_step(d, &mut out) {
                    Ok(()) => {},
                    Err(e) => {
                        return Err(e);
                    },
                }
            },
            Token::Symbol(sym) => {
                match *sym {
                    Symbol::Plus => {
                        let ghost opsold = ops@;
                        let ghost outold = out@;
                        flush_low_exec(&mut ops, &mut out);
                        ops.push(Operator::Plus);
                        proof {
                            assert(spec_convert_loop(skipi, opsold, outold) == spec_convert_loop(
                                skipi.drop_first(),
                                flush_low(opsold).0.push(Operator::Plus),
                                outold + flush_low(opsold).1,
                            ));
                        }
                    },
                    Symbol::Minus => {
                        let ghost opsold = ops@;
                        let ghost outold = out@;
                        flush_low_exec(&mut ops, &mut out);
                        ops.push(Operator::Sub);
                        proof {
                            assert(spec_convert_loop(skipi, opsold, outold) == spec_convert_loop(
                                skipi.drop_first(),
                                flush_low(opsold).0.push(Operator::Sub),
                                outold + flush_low(opsold).1,
                            ));
                        }
                    },
                    Symbol::Star => {
                        let ghost opsold = ops@;
                        let ghost outold = out@;
                        flush_muldiv_exec(&mut ops, &mut out);
                        ops.push(Operator::Mul);
                        proof {
                            assert(spec_convert_loop(skipi, opsold, outold) == spec_convert_loop(
                                skipi.drop_first(),
                                flush_muldiv(opsold).0.push(Operator::Mul),
                                outold + flush_muldiv(opsold).1,
                            ));
                        }
                    },
                    Symbol::Slash => {
                        let ghost opsold = ops@;
                        let ghost outold = out@;
                        flush_muldiv_exec(&mut ops, &mut out);
                        ops.push(Operator::Div);
                        proof {
                            assert(spec_convert_loop(skipi, opsold, outold) == spec_convert_loop(
                                skipi.drop_first(),
                                flush_muldiv(opsold).0.push(Operator::Div),
                                outold + flush_muldiv(opsold).1,
                            ));
                        }
                    },
                    Symbol::Open => {
                        ops.push(Operator::LeftBracket);
                    },
                    Symbol::Close => {
                        let ghost opsold = ops@;
                        let ghost outold = out@;
                        match flush_bracket_exec(&mut ops, &mut out) {
                            Ok(()) => {},
                            Err(e) => {
                                proof {
                                    assert(flush_to_bracket(opsold) is Err);
                                }
                                return Err(e);
                            },
                        }
                    },
                }
            },
        }
        i += 1;
    }
    proof {
        assert(toks.skip(tokens@.len() as int) =~= Seq::<TokenModel>::empty());
    }
    match drain_exec(&mut ops, &mut out) {
        Ok(()) => Ok(out),
        Err(e) => Err(e),
    }
}

/// Parses one literal token and emits its value; a run too large for an
/// `i64` is the reported overflow.
fn parse_step(d: &Vec<char>, out: &mut Stack) -> (r: Result<(), ExpressionError>)
    ensures
        digits_value(d@) <= i64::MAX ==> r is Ok && final(out)@ == old(out)@.push(
            CalUnit::Num(digits_value(d@) as i64),
        ),
        digits_value(d@) > i64::MAX ==> r == Err::<(), ExpressionError>(
            ExpressionError::NumericOverflow,
        ) && final(out)@ == old(out)@,
{
    match crate::tokens::parse_literal(d) {
        Ok(v) => {
            out.push(CalUnit::Num(v));
            Ok(())
        },
        Err(e) => Err(e),
    }
}

} // verus!
