pub mod environment;
pub mod evaluator;
pub mod expr;
pub mod expr_writer;
pub mod grammar;
pub mod highlighter;
pub mod lexer;
pub mod text;
