//! A verified arithmetic-expression front end.
//!
//! Input text is tokenized into lexical units, then parsed by precedence
//! climbing into an abstract syntax tree.  Numeric payloads are kept as the
//! literal text exactly as written, so that a caller may interpret them with
//! whatever numeric type it chooses; the tree itself and both pipeline
//! stages are specified and proved here.

pub mod ast;
pub mod parser;
pub mod token;
pub mod tokenizer;

pub use ast::Node;
pub use ast::NodeView;
pub use parser::parse_expression;
pub use parser::ParseError;
pub use parser::Parser;
pub use token::OperPrec;
pub use token::Token;
pub use token::TokenView;
pub use tokenizer::Tokenizer;
