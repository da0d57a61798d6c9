//! A small line-oriented template language: a tokenizer, a parser, an
//! evaluator over a variable environment, and a renderer that rebuilds a file
//! from its lines and the values computed for some of them.
pub mod error;
pub mod text;
pub mod token;
pub mod ast;
pub mod lexer;
pub mod parser;
pub mod env;
pub mod eval;
pub mod engine;
pub mod config;

pub use ast::{Condition, Expression, Value};
pub use config::{has_unique_elements, home_dir, ApplyAction, ConfigFile, LinkOutcome, LinkedFile};
pub use engine::TemplateEngine;
pub use env::Variables;
pub use error::{EngineError, ParseError, TokenizeError};
pub use token::Token;
