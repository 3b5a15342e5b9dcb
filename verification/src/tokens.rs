//! The tokenizer: scans raw text left to right, takes each maximal run of
//! decimal digits as one integer-literal token and each of `+ - * / ( )` as
//! one symbol token, and silently skips every other character.

use vstd::prelude::*;
use vstd::string::*;
use crate::units::ExpressionError;

verus! {

/// The six punctuation characters the tokenizer recognises.
#[derive(Clone, Copy, Debug, PartialEq, Eq, Structural)]
pub enum Symbol {
    Plus,
    Minus,
    Star,
    Slash,
    Open,
    Close,
}

/// A lexical token: a maximal run of decimal digits, or one symbol character.
#[derive(Debug, PartialEq, Eq)]
pub enum Token {
    IntLiteral(Vec<char>),
    Symbol(Symbol),
}

/// The mathematical shape of a token, with the digit run as a sequence.
#[verifier::ext_equal]
pub enum TokenModel {
    Int(Seq<char>),
    Sym(Symbol),
}

impl View for Token {
    type V = TokenModel;

    open spec fn view(&self) -> TokenModel {
        match self {
            Token::IntLiteral(d) => TokenModel::Int(d@),
            Token::Symbol(s) => TokenModel::Sym(*s),
        }
    }
}

pub open spec fn is_digit_char(c: char) -> bool {
    48 <= c as u32 <= 57
}

pub open spec fn is_symbol_char(c: char) -> bool {
    c == '+' || c == '-' || c == '*' || c == '/' || c == '(' || c == ')'
}

pub open spec fn symbol_of_char(c: char) -> Symbol {
    if c == '+' {
        Symbol::Plus
    } else if c == '-' {
        Symbol::Minus
    } else if c == '*' {
        Symbol::Star
    } else if c == '/' {
        Symbol::Slash
    } else if c == '(' {
        Symbol::Open
    } else {
        Symbol::Close
    }
}

/// Numeric value of one digit character. A character outside `'0'..='9'`
/// counts as zero; the tokenizer never places one inside a literal token.
pub open spec fn digit_val(c: char) -> int {
    if is_digit_char(c) {
        c as u32 - 48
    } else {
        0
    }
}

/// Value of a run of decimal digits read left to right.
pub open spec fn digits_value(s: Seq<char>) -> int
    decreases s.len(),
{
    if s.len() == 0 {
        0
    } else {
        10 * digits_value(s.drop_last()) + digit_val(s.last())
    }
}

/// Tokenization of `s`: maximal digit runs become integer literals, symbol
/// characters become symbol tokens, and all other characters are skipped.
pub open spec fn spec_tokenize(s: Seq<char>) -> Seq<TokenModel>
    decreases s.len(), 0int,
{
    if s.len() == 0 {
        Seq::empty()
    } else if is_digit_char(s[0]) {
        spec_tokenize_run(s.drop_first(), seq![s[0]])
    } else if is_symbol_char(s[0]) {
        seq![TokenModel::Sym(symbol_of_char(s[0]))] + spec_tokenize(s.drop_first())
    } else {
        spec_tokenize(s.drop_first())
    }
}

/// Tokenization while inside a digit run, with the digits already read in
/// `acc`: the run extends as long as digits follow, then closes as one token.
pub open spec fn spec_tokenize_run(s: Seq<char>, acc: Seq<char>) -> Seq<TokenModel>
    decreases s.len(), 1int,
{
    if s.len() > 0 && is_digit_char(s[0]) {
        spec_tokenize_run(s.drop_first(), acc.push(s[0]))
    } else {
        seq![TokenModel::Int(acc)] + spec_tokenize(s)
    }
}

/// The models of a sequence of tokens.
pub open spec fn token_views(ts: Seq<Token>) -> Seq<TokenModel> {
    ts.map_values(|t: Token| t@)
}

/// A digit run never has a negative value.
pub proof fn lemma_digits_value_nonneg(s: Seq<char>)
    ensures
        digits_value(s) >= 0,
    decreases s.len(),
{
    if s.len() > 0 {
        lemma_digits_value_nonneg(s.drop_last());
    }
}

/// Reading one more digit multiplies the prefix value by ten and adds it.
pub proof fn lemma_digits_value_take_succ(s: Seq<char>, i: int)
    requires
        0 <= i < s.len(),
    ensures
        digits_value(s.take(i + 1)) == 10 * digits_value(s.take(i)) + digit_val(s[i]),
{
    assert(s.take(i + 1).drop_last() =~= s.take(i));
    assert(s.take(i + 1).last() == s[i]);
}

/// The value of a digit run is at least the value of any of its prefixes.
pub proof fn lemma_digits_value_prefix_le(s: Seq<char>, i: int)
    requires
        0 <= i <= s.len(),
    ensures
        digits_value(s.take(i)) <= digits_value(s),
    decreases s.len() - i,
{
    if i == s.len() {
        assert(s.take(i) =~= s);
    } else {
        lemma_digits_value_take_succ(s, i);
        lemma_digits_value_nonneg(s.take(i));
        lemma_digits_value_prefix_le(s, i + 1);
    }
}

/// A digit run in progress swallows every further digit: on an all-digit
/// rest it closes as one literal holding the accumulated and the remaining
/// digits together.
proof fn lemma_all_digit_run(s: Seq<char>, acc: Seq<char>)
    requires
        forall|i: int| 0 <= i < s.len() ==> is_digit_char(s[i]),
    ensures
        spec_tokenize_run(s, acc) == seq![TokenModel::Int(acc + s)],
    decreases s.len(),
{
    if s.len() == 0 {
        assert(acc + s =~= acc);
        assert(seq![TokenModel::Int(acc)] + spec_tokenize(s) =~= seq![TokenModel::Int(acc)]);
    } else {
        lemma_all_digit_run(s.drop_first(), acc.push(s[0]));
        assert(acc.push(s[0]) + s.drop_first() =~= acc + s);
    }
}

/// A nonempty text of decimal digits only is one integer-literal token.
pub proof fn lemma_all_digits_tokenize(s: Seq<char>)
    requires
        s.len() > 0,
        forall|i: int| 0 <= i < s.len() ==> is_digit_char(s[i]),
    ensures
        spec_tokenize(s) == seq![TokenModel::Int(s)],
{
    lemma_all_digit_run(s.drop_first(), seq![s[0]]);
    assert(seq![s[0]] + s.drop_first() =~= s);
}

/// Pushing a token onto a sequence appends its model to the model sequence.
pub proof fn lemma_token_views_push(ts: Seq<Token>, t: Token)
    ensures
        token_views(ts.push(t)) == token_views(ts).push(t@),
{
    assert(token_views(ts.push(t)) =~= token_views(ts).push(t@));
}

fn is_digit_exec(c: char) -> (r: bool)
    ensures
        r == is_digit_char(c),
{
    let u: u32 = c as u32;
    48 <= u && u <= 57
}

/// Parses a run of decimal digits with checked arithmetic: the value if it
/// fits in an `i64`, and a reported overflow otherwise.
pub fn parse_literal(digits: &Vec<char>) -> (r: Result<i64, ExpressionError>)
    ensures
        digits_value(digits@) <= i64::MAX ==> r == Ok::<i64, ExpressionError>(
            digits_value(digits@) as i64,
        ),
        digits_value(digits@) > i64::MAX ==> r == Err::<i64, ExpressionError>(
            ExpressionError::NumericOverflow,
        ),
{
    let mut v: i64 = 0;
    let mut i: usize = 0;
    while i < digits.len()
        invariant
            0 <= i <= digits.len(),
            v == digits_value(digits@.take(i as int)),
            v >= 0,
        decreases digits.len() - i,
    {
        let c = digits[i];
        let u: u32 = c as u32;
        let d: i64 = if 48 <= u && u <= 57 {
            (u - 48) as i64
        } else {
            0
        };
        proof {
            assert(d == digit_val(digits@[i as int]));
            lemma_digits_value_take_succ(digits@, i as int);
        }
        let step = match v.checked_mul(10) {
            Some(m) => m.checked_add(d),
            None => None,
        };
        match step {
            Some(v2) => {
                v = v2;
            },
            None => {
                proof {
                    lemma_digits_value_prefix_le(digits@, i + 1);
                }
                return Err(ExpressionError::NumericOverflow);
            },
        }
        i += 1;
    }
    proof {
        assert(digits@.take(digits.len() as int) =~= digits@);
    }
    Ok(v)
}

fn symbol_exec(c: char) -> (r: Option<Symbol>)
    ensures
        is_symbol_char(c) ==> r == Some(symbol_of_char(c)),
        !is_symbol_char(c) ==> r is None,
{
    if c == '+' {
        Some(Symbol::Plus)
    } else if c == '-' {
        Some(Symbol::Minus)
    } else if c == '*' {
        Some(Symbol::Star)
    } else if c == '/' {
        Some(Symbol::Slash)
    } else if c == '(' {
        Some(Symbol::Open)
    } else if c == ')' {
        Some(Symbol::Close)
    } else {
        None
    }
}

/// Scans `text` left to right and returns its tokens: each maximal digit run
/// as one integer literal, each of `+ - * / ( )` as one symbol, every other
/// character silently skipped.
pub fn tokenize(text: &str) -> (r: Vec<Token>)
    ensures
        token_views(r@) == spec_tokenize(text@),
{
    let n = text.unicode_len();
    let mut out: Vec<Token> = Vec::new();
    let mut cur: Vec<char> = Vec::new();
    let mut i: usize = 0;
    proof {
        assert(text@.skip(0) =~= text@);
        assert(token_views(out@) + spec_tokenize(text@) =~= spec_tokenize(text@));
    }
    while i < n
        invariant
            n == text@.len(),
            0 <= i <= n,
            cur@.len() == 0 ==> token_views(out@) + spec_tokenize(text@.skip(i as int))
                == spec_tokenize(text@),
            cur@.len() > 0 ==> token_views(out@) + spec_tokenize_run(text@.skip(i as int), cur@)
                == spec_tokenize(text@),
        decreases n - i,
    {
        let ghost s = text@;
        let ghost iold = i as int;
        let c = text.get_char(i);
        proof {
            assert(s.skip(iold)[0] == s[iold]);
            assert(s.skip(iold).drop_first() =~= s.skip(iold + 1));
        }
        if is_digit_exec(c) {
            proof {
                if cur@.len() == 0 {
                    assert(spec_tokenize(s.skip(iold)) == spec_tokenize_run(
                        s.skip(iold + 1),
                        seq![c],
                    ));
                } else {
                    assert(spec_tokenize_run(s.skip(iold), cur@) == spec_tokenize_run(
                        s.skip(iold + 1),
                        cur@.push(c),
                    ));
                }
            }
            let ghost curold = cur@;
            cur.push(c);
            proof {
                if curold.len() == 0 {
                    assert(cur@ =~= seq![c]);
                }
            }
        } else {
            if cur.len() > 0 {
                proof {
                    assert(spec_tokenize_run(s.skip(iold), cur@) == seq![
                        TokenModel::Int(cur@),
                    ] + spec_tokenize(s.skip(iold)));
                }
                let ghost outold = out@;
                let ghost curold = cur@;
                out.push(Token::IntLiteral(cur));
                cur = Vec::new();
                proof {
                    lemma_token_views_push(outold, out@.last());
                    assert(out@.last()@ == TokenModel::Int(curold));
                    assert(out@ == outold.push(out@.last()));
                    assert(token_views(outold).push(TokenModel::Int(curold)) + spec_tokenize(
                        s.skip(iold),
                    ) =~= token_views(outold) + (seq![TokenModel::Int(curold)] + spec_tokenize(
                        s.skip(iold),
                    )));
                }
            }
            match symbol_exec(c) {
                Some(sym) => {
                    proof {
                        assert(spec_tokenize(s.skip(iold)) == seq![
                            TokenModel::Sym(symbol_of_char(c)),
                        ] + spec_tokenize(s.skip(iold + 1)));
                    }
                    let ghost outold = out@;
                    out.push(Token::Symbol(sym));
                    proof {
                        lemma_token_views_push(outold, Token::Symbol(sym));
                        assert(token_views(outold).push(TokenModel::Sym(sym)) + spec_tokenize(
                            s.skip(iold + 1),
                        ) =~= token_views(outold) + (seq![TokenModel::Sym(sym)] + spec_tokenize(
                            s.skip(iold + 1),
                        )));
                    }
                },
                None => {
                    proof {
                        assert(spec_tokenize(s.skip(iold)) == spec_tokenize(s.skip(iold + 1)));
                    }
                },
            }
        }
        i += 1;
    }
    proof {
        assert(text@.skip(n as int) =~= Seq::<char>::empty());
    }
    if cur.len() > 0 {
        proof {
            assert(spec_tokenize_run(text@.skip(n as int), cur@) == seq![
                TokenModel::Int(cur@),
            ] + spec_tokenize(text@.skip(n as int)));
        }
        let ghost outold = out@;
        let ghost curold = cur@;
        out.push(Token::IntLiteral(cur));
        proof {
            lemma_token_views_push(outold, out@.last());
            assert(out@.last()@ == TokenModel::Int(curold));
            assert(out@ == outold.push(out@.last()));
            assert(token_views(outold).push(TokenModel::Int(curold)) =~= token_views(outold) + (
            seq![TokenModel::Int(curold)] + spec_tokenize(text@.skip(n as int))));
        }
    } else {
        proof {
            assert(token_views(out@) + spec_tokenize(text@.skip(n as int)) =~= token_views(out@));
        }
    }
    out
}

} // verus!
