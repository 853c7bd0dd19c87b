//! Design-token expression and resolution engine.
//!
//! A design-token document is a tree of named groups whose leaves carry a
//! small expression language: literal colors, numbers with units, references
//! to other tokens, and arithmetic composition. This crate parses those
//! expressions, resolves references (guarding against cycles), applies
//! colorimetric extension transforms, and renders the resolved tree as
//! stylesheet text and as typed constant declarations.
use vstd::prelude::*;

pub mod color;
pub mod decimal;
pub mod errors;
pub mod expression;
pub mod extensions;
pub mod parser;
pub mod render;
pub mod resolve;
pub mod slug;
pub mod strutil;
pub mod transform;
pub mod tree;
pub mod value;

pub use parser::parse_expression;
pub use value::NumberType;
pub use value::Value;
pub use errors::Error;
pub use color::ColorValue;
pub use decimal::Decimal;
pub use expression::Expression;
pub use extensions::{Extensions, StudioTokensExtension, StudioTokensModify, StudioTokensSpace};
pub use tree::{DesignTokens, TokenOrGroup, TokenType, TokenValue};
