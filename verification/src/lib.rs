//! A verified calculator core: arithmetic expressions typed as text
//! (integer literals, `+ - * /`, parentheses) are tokenized, converted to a
//! postfix sequence with the shunting-yard algorithm, and evaluated by a
//! stack machine, with every stage's behaviour pinned down by a spec-level
//! model of the same pipeline.

pub mod config;
pub mod convert;
pub mod eval;
pub mod pipeline;
pub mod stack;
pub mod tokens;
pub mod units;

pub use config::Application;
pub use config::Config;
pub use convert::convert;
pub use eval::evaluate;
pub use pipeline::calculate;
pub use pipeline::evaluate_expression;
pub use stack::Stack;
pub use tokens::tokenize;
pub use tokens::Symbol;
pub use tokens::Token;
pub use units::CalUnit;
pub use units::ExpressionError;
pub use units::Operator;
