//! A small reader for JSON-like documents.
//!
//! Text is read in two stages. The [`Lexer`] turns characters into
//! [`LexerToken`]s; the [`Parser`] reads those tokens by recursive descent and
//! builds a tree of [`Value`]s. Every function states what it returns over a
//! mathematical model of the input that is left, and the statements are
//! proved.
//!
//! The models are layered as the code is. [`scan`] says which token stands
//! at the start of a text; [`stream`] makes a sequence of the tokens of a
//! text; [`grammar`] says what each production reads from such a sequence;
//! and [`written`] shows that a parse gives a tree exactly where the tokens
//! are that tree written out.
//!
//! ```text
//! let mut parser = Parser::new(Lexer::new("{\"k\": [1, null]}"));
//! let document = parser.parse();
//! ```

pub mod assumed;
pub mod cursor;
pub mod error;
pub mod grammar;
pub mod lexer;
pub mod parser;
pub mod scan;
pub mod stream;
pub mod token;
pub mod token_cursor;
pub mod value;
pub mod written;

pub use cursor::Cursor;
pub use error::{Error, Expected};
pub use lexer::{IntoIter, Lexer};
pub use parser::Parser;
pub use token::{LexerToken, LiteralType};
pub use token_cursor::TokenCursor;
pub use value::{Array, Element, Elements, Member, Members, Object, Value};
