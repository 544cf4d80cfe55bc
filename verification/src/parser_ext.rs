//! `parse`, `try_parse` and `parse_as` as methods of every parser.

use crate::error::Error;
use crate::parser::{parse_deterministic, productions, try_parse_len, Parse, Parser};
use crate::parser_lexer::{lexemes, LexerParser, ParserLexer};
use crate::stream::cleaned;
use crate::token::{clones_exactly, lawful, lex_deterministic, Lex, Token};
use vstd::laws_eq::obeys_concrete_eq;
use vstd::prelude::*;

verus! {

/// What every [`Parser`] can do with a production: the functions
/// [`parse`](crate::parser::parse), [`try_parse`](crate::parser::try_parse)
/// and [`parse_as`](crate::parser_lexer::parse_as), called as methods.
pub trait ParserExt<T: Token + Clone>: Parser<T> {
    /// Parses a `P`: the production is required, and its error is returned.
    fn parse<P: Parse<Token = T>>(&mut self) -> (r: Result<P, Error>)
        requires
            old(self).inv(),
            lawful::<T>(),
        ensures
            final(self).inv(),
            match P::parse_len(old(self).stream()) {
                Some(n) => n <= old(self).stream().len() && final(self).stream() == old(self).stream().skip(n as int) && (r matches Ok(v) && P::parse_value(
                    old(self).stream(),
                    v,
                )),
                None => r is Err,
            },
            r matches Err(e) ==> e@.span is Some,
    {
        crate::parser::parse::<P, Self>(self)
    }

    /// Parses a `P` if one is there: at once where one token of lookahead
    /// decides, on a fork where it cannot.
    fn try_parse<P: Parse<Token = T>>(&mut self) -> (r: Result<Option<P>, Error>)
        requires
            old(self).inv(),
            lawful::<T>(),
        ensures
            final(self).inv(),
            match try_parse_len::<P>(old(self).stream()) {
                Ok(Some(n)) => n <= old(self).stream().len() && final(self).stream() == old(self).stream().skip(n as int) && (r matches Ok(Some(v)) && P::parse_value(
                    old(self).stream(),
                    v,
                )),
                Ok(None) => r matches Ok(None) && final(self).stream() == old(self).stream(),
                Err(_) => r matches Err(e) && e@.span is Some,
            },
    {
        crate::parser::try_parse::<P, Self>(self)
    }

    /// The next level of a grammar over this parser: a parser of the tokens
    /// `U` that are lexed from its productions `P`.
    #[inline]
    fn parse_as<P: Parse<Token = T> + Clone + PartialEq, U: Lex<P> + Clone>(self) -> (r:
        LexerParser<ParserLexer<P, Self>, U>)
        requires
            self.inv(),
            lawful::<T>(),
            parse_deterministic::<P>(),
            clones_exactly::<P>(),
            obeys_concrete_eq::<P>(),
            lex_deterministic::<P, U>(),
            clones_exactly::<U>(),
        ensures
            r.inv(),
            r.stream() == lexemes::<P, U>(cleaned(productions::<P>(self.stream()))),
    {
        crate::parser_lexer::parse_as::<P, U, Self>(self)
    }
}

impl<T: Token + Clone, S: Parser<T>> ParserExt<T> for S {
}

} // verus!
