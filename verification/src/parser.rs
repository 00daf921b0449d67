//! The token types, as the parser sees them.
pub use crate::{LexErrorKind, Token, TokenKind};
