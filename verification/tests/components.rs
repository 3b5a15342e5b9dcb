use calculator::convert;
use calculator::evaluate;
use calculator::tokenize;
use calculator::Application;
use calculator::CalUnit;
use calculator::Config;
use calculator::ExpressionError;
use calculator::Operator;
use calculator::Stack;
use calculator::Symbol;
use calculator::Token;

#[test]
fn tokenize_mixed() {
    let toks = tokenize("12+(34*5)");
    assert_eq!(
        toks,
        vec![
            Token::IntLiteral(vec!['1', '2']),
            Token::Symbol(Symbol::Plus),
            Token::Symbol(Symbol::Open),
            Token::IntLiteral(vec!['3', '4']),
            Token::Symbol(Symbol::Star),
            Token::IntLiteral(vec!['5']),
            Token::Symbol(Symbol::Close),
        ]
    );
}

#[test]
fn tokenize_skips_unknown() {
    let toks = tokenize("1x2 y3");
    assert_eq!(
        toks,
        vec![
            Token::IntLiteral(vec!['1']),
            Token::IntLiteral(vec!['2']),
            Token::IntLiteral(vec!['3']),
        ]
    );
}

#[test]
fn tokenize_nothing() {
    assert_eq!(tokenize(""), Vec::<Token>::new());
    assert_eq!(tokenize("hello world"), Vec::<Token>::new());
}

#[test]
fn convert_orders_by_precedence() {
    let toks = tokenize("2+3*4");
    let rpn = convert(&toks).unwrap();
    assert_eq!(
        rpn.stack,
        vec![
            CalUnit::Num(2),
            CalUnit::Num(3),
            CalUnit::Num(4),
            CalUnit::Operator(Operator::Mul),
            CalUnit::Operator(Operator::Plus),
        ]
    );
}

#[test]
fn convert_never_emits_bracket() {
    let toks = tokenize("((1+2)*(3+4))/5");
    let rpn = convert(&toks).unwrap();
    assert!(rpn
        .stack
        .iter()
        .all(|u| *u != CalUnit::Operator(Operator::LeftBracket)));
}

#[test]
fn convert_reports_close_bracket() {
    let toks = tokenize("1+2)");
    assert_eq!(convert(&toks), Err(ExpressionError::UnmatchedCloseBracket));
}

#[test]
fn evaluate_postfix_directly() {
    let mut rpn = Stack::new();
    rpn.push(CalUnit::Num(10));
    rpn.push(CalUnit::Num(3));
    rpn.push(CalUnit::Operator(Operator::Sub));
    assert_eq!(evaluate(&rpn), Ok(7));
}

#[test]
fn evaluate_rejects_surplus_values() {
    let mut rpn = Stack::new();
    rpn.push(CalUnit::Num(1));
    rpn.push(CalUnit::Num(2));
    assert_eq!(evaluate(&rpn), Err(ExpressionError::MalformedResult));
}

#[test]
fn evaluate_rejects_bracket_marker() {
    let mut rpn = Stack::new();
    rpn.push(CalUnit::Num(1));
    rpn.push(CalUnit::Num(2));
    rpn.push(CalUnit::Operator(Operator::LeftBracket));
    assert_eq!(evaluate(&rpn), Err(ExpressionError::MalformedOperand));
}

#[test]
fn stack_push_str_classifies() {
    let mut st = Stack::new();
    st.push_str("12").unwrap();
    st.push_str("+").unwrap();
    st.push_str("-").unwrap();
    st.push_str("*").unwrap();
    st.push_str("/").unwrap();
    st.push_str("(").unwrap();
    assert_eq!(
        st.stack,
        vec![
            CalUnit::Num(12),
            CalUnit::Operator(Operator::Plus),
            CalUnit::Operator(Operator::Sub),
            CalUnit::Operator(Operator::Mul),
            CalUnit::Operator(Operator::Div),
            CalUnit::Operator(Operator::LeftBracket),
        ]
    );
}

#[test]
fn stack_push_str_overflow() {
    let mut st = Stack::new();
    assert_eq!(
        st.push_str("99999999999999999999"),
        Err(ExpressionError::NumericOverflow)
    );
    assert!(st.is_empty());
}

#[test]
fn stack_order() {
    let mut st = Stack::new();
    assert!(st.is_empty());
    assert_eq!(st.pop(), None);
    assert_eq!(st.last(), None);
    st.push(CalUnit::Num(1));
    st.push(CalUnit::Num(2));
    assert!(!st.is_empty());
    assert_eq!(st.last(), Some(CalUnit::Num(2)));
    assert_eq!(st.pop(), Some(CalUnit::Num(2)));
    assert_eq!(st.pop(), Some(CalUnit::Num(1)));
    assert!(st.is_empty());
}

#[test]
fn config_flag_disables_prompt() {
    let mut c = Config::new();
    assert!(c.enable_prompt);
    c.set_config(&vec!["prog".to_string(), "-p".to_string()]);
    assert!(!c.enable_prompt);
}

#[test]
fn config_ignores_unknown_args() {
    let mut c = Config::new();
    c.set_config(&vec!["prog".to_string(), "-x".to_string()]);
    assert!(c.enable_prompt);
}

#[test]
fn application_holds_config() {
    let mut c = Config::new();
    c.set_config(&vec!["-p".to_string()]);
    let app = Application::new(c);
    assert!(!app.config.enable_prompt);
}
