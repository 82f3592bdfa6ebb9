//! Brand selection for white-label builds: a clause list of
//! `pattern => literal` rules is parsed and resolved against one configured
//! brand name, yielding exactly one literal.

pub mod clause;
pub mod lexer;
pub mod literal;
pub mod parser;
pub mod resolver;

pub use clause::{BrandError, LitKind, Value, WLBrand, WLInput, WLMatch};
pub use lexer::TokenKind;
pub use resolver::brand;
