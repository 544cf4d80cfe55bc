//! Composable lexing and parsing: tokens with kinds, predictive dispatch with
//! a speculative fallback, source spans and structured errors.
//!
//! # The model
//!
//! Every lexer and every parser describes what it has in front of it as a
//! [`Stream`]: the units that successive reads will return, and the position
//! in the source before and after each of them. The contracts of [`Lexer`] and
//! [`Parser`] say how each operation moves through that stream, and the
//! contracts of [`Lex`] and [`Parse`] say, for every stream, whether a value can
//! be read from its front, how many units that takes, and which value it is.
//!
//! A grammar is layered: a [`CharsLexer`] reads characters, a
//! [`SkipWhitespace`] or a [`LexerParser`] turns them into tokens, and a
//! [`TokenParser`] or a [`ParserLexer`] turns the productions of one level into
//! the units of the next. The stream of each level is a function of the stream
//! below it.
//!
//! # Dispatch
//!
//! [`try_parse`] asks the start set of a production, on one token of
//! lookahead, whether the production is next. Where the start set names the
//! token's kind the production is parsed at once; where it rules the kind out
//! nothing is read; where one token cannot tell, the production is parsed on a
//! fork, which is committed on success and dropped on failure. A failed
//! attempt on a fork never moves the parser it was forked from.
//!
//! # Lists and regions
//!
//! [`VecTerminated`] and [`Punctuated`] read elements up to a terminator,
//! which is looked for on a fork and left in place. [`Delimited`] finds the
//! right delimiter that closes a region by counting nested delimiters, and
//! parses the tokens in between on their own, from a [`ParseBuffer`].

pub mod chars_parser;
pub mod delimited;
pub mod error;
pub mod number;
pub mod parse_buffer;
pub mod parse_error;
pub mod parser;
pub mod parser_ext;
pub mod parser_lexer;
pub mod punctuated;
pub mod span;
pub mod stream;
pub mod string_allocator;
pub mod token;
pub mod token_parser;
pub mod vec;
pub mod whitespace;

pub use chars_parser::CharsParser;
pub use delimited::Delimited;
pub use error::{Error, ErrorHint, ErrorKind};
pub use number::{Integer, IntegerFormat};
pub use parse_buffer::ParseBuffer;
pub use parse_error::{ParseError, TokenOrMessage};
pub use parser::{
    consume, expect_kind, expect_token, expected_one_of, is_next, parse, skip_whitespace,
    try_parse, Nothing, Parse, Parser, SkipWhitespace, StartSet, StartTokens,
};
pub use parser_ext::ParserExt;
pub use parser_lexer::{LexerParser, ParserLexer};
pub use span::{SourcePath, Span, Spanned, SpannedOption};
pub use stream::Stream;
pub use string_allocator::{static_str, StringAllocator};
pub use token_parser::TokenParser;
pub use vec::{at_stop, occurs, parse_element, Punctuated, VecTerminated};
pub use token::{lex_exact, try_lex, CharsLexer, Lex, Lexer, Token, TokenKind};
pub use whitespace::{Whitespace, WhitespacePadded, WhitespaceParser};
