//! Adapters between the levels of a layered grammar: a lexer seen as a
//! parser of the tokens lexed from it, and a parser seen as a lexer of the
//! productions parsed from it.

use crate::error::{Error, ErrorKind};
use crate::parser::{parse_deterministic, productions, Parse, Parser};
use crate::span::Span;
use crate::stream::{
    cleaned, lemma_prepend, lemma_regroup, lemma_skip, prepend, regroup, with_peek, Stream,
};
use crate::token::{clones_exactly, lawful, lex_deterministic, lexed, Lex, Lexer};
use crate::token_parser::TokenParser;
use vstd::laws_eq::obeys_concrete_eq;
use vstd::prelude::*;

verus! {

/// [`Lex::lex_len`] of `T`, as a value.
pub open spec fn lex_len_fn<S, T: Lex<S>>() -> spec_fn(Stream<S>) -> Option<nat> {
    |input: Stream<S>| T::lex_len(input)
}

/// [`lexed`] of `T`, as a value.
pub open spec fn lexed_fn<S, T: Lex<S>>() -> spec_fn(Stream<S>) -> T {
    |input: Stream<S>| lexed::<S, T>(input)
}

/// The tokens `T` that stand one directly after another in `input`.
pub open spec fn lexemes<S, T: Lex<S>>(input: Stream<S>) -> Stream<T> {
    regroup(input, lex_len_fn::<S, T>(), lexed_fn::<S, T>())
}

/// A [`Parser`] whose tokens are lexed, one directly after another, from the
/// units of a lexer.
///
/// Each token is lexed on a fork, which is committed where the token consumed
/// input. At most one token that has been looked at is kept, with the
/// position at which it starts.
pub struct LexerParser<L, T> {
    lexer: L,
    peek: Option<(T, Span)>,
}

impl<L: Lexer, T: Lex<L::Output> + Clone> LexerParser<L, T> {
    /// The lexer that the tokens are read from.
    pub closed spec fn source(&self) -> L {
        self.lexer
    }

    /// The token that has been looked at and not consumed, with the
    /// position at which it starts.
    pub closed spec fn peeked(&self) -> Option<(T, Span)> {
        self.peek
    }

    /// A parser of the tokens `T` in the units of `lexer`.
    #[inline]
    pub fn new(lexer: L) -> (r: Self)
        requires
            lexer.inv(),
            lex_deterministic::<L::Output, T>(),
            clones_exactly::<T>(),
        ensures
            r.inv(),
            r.source() == lexer,
            r.peeked() is None,
            r.stream() == lexemes::<L::Output, T>(lexer.stream()),
    {
        LexerParser { lexer, peek: None }
    }

    /// Lexes one token on a fork, and commits the fork where the token
    /// consumed input.
    fn read(&mut self) -> (r: Result<(T, Span), Error>)
        requires
            old(self).lexer.inv(),
            lex_deterministic::<L::Output, T>(),
        ensures
            final(self).lexer.inv(),
            final(self).peek == old(self).peek,
            lexemes::<L::Output, T>(old(self).lexer.stream()).len() > 0 ==> (r matches Ok(found)
                && prepend(found.0, found.1, lexemes::<L::Output, T>(final(self).lexer.stream()))
                == lexemes::<L::Output, T>(old(self).lexer.stream())
                && found.1 == old(self).lexer.stream().here()
                && found.1.length == 0
                && found.1.offset < lexemes::<L::Output, T>(
                final(self).lexer.stream(),
            ).here().offset
                && found.1.same_source(lexemes::<L::Output, T>(final(self).lexer.stream()).here())),
            lexemes::<L::Output, T>(old(self).lexer.stream()).len() == 0 ==> final(self).lexer.stream() == old(self).lexer.stream() && (r matches Err(e) && e@.span is Some
                && (lexemes::<L::Output, T>(old(self).lexer.stream()).clean ==> e@.kind
                == ErrorKind::UnexpectedEof && e@.span == Some(
                old(self).lexer.stream().here(),
            ))),
    {
        let ghost input = self.lexer.stream();
        proof {
            self.lexer.lemma_inv();
            lemma_skip(input, 0, 0);
            lemma_regroup(
                input,
                lex_len_fn::<L::Output, T>(),
                lexed_fn::<L::Output, T>(),
            );
        }
        let at = self.lexer.span(0);
        if self.lexer.is_empty() {
            return Err(Error::unexpected_eof(at));
        }
        let mut fork = self.lexer.fork();
        match T::lex(&mut fork) {
            Ok(value) => {
                let after = fork.span(0);
                proof {
                    lemma_skip(input, T::lex_len(input)->0 as int, 0);
                }
                if after.offset == at.offset {
                    Err(Error::spanned(at, "a token must consume input"))
                } else {
                    self.lexer = fork;
                    assert(value == lexed::<L::Output, T>(input));
                    Ok((value, at))
                }
            },
            Err(e) => Err(e),
        }
    }
}

impl<L: Lexer, T: Lex<L::Output> + Clone> Parser<T> for LexerParser<L, T> {
    closed spec fn inv(&self) -> bool {
        &&& self.lexer.inv()
        &&& lex_deterministic::<L::Output, T>()
        &&& clones_exactly::<T>()
        &&& self.peek matches Some(found) ==> found.1.length == 0 && found.1.same_source(
            lexemes::<L::Output, T>(self.lexer.stream()).here(),
        ) && found.1.offset < lexemes::<L::Output, T>(self.lexer.stream()).here().offset
    }

    closed spec fn stream(&self) -> Stream<T> {
        with_peek(self.peek, lexemes::<L::Output, T>(self.lexer.stream()))
    }

    proof fn lemma_inv(&self) {
        self.lexer.lemma_inv();
        lemma_regroup(
            self.lexer.stream(),
            lex_len_fn::<L::Output, T>(),
            lexed_fn::<L::Output, T>(),
        );
        match self.peek {
            Some(found) => {
                lemma_prepend(found.0, found.1, lexemes::<L::Output, T>(self.lexer.stream()));
            },
            None => {},
        }
    }

    fn span(&mut self, length: usize) -> (s: Span) {
        proof {
            self.lemma_inv();
            self.lexer.lemma_inv();
        }
        match &self.peek {
            Some(found) => found.1.with_len(length),
            None => self.lexer.span(length),
        }
    }

    fn next(&mut self) -> (r: Result<T, Error>) {
        proof {
            self.lemma_inv();
            self.lexer.lemma_inv();
        }
        match self.peek.take() {
            Some(found) => {
                proof {
                    self.lexer.lemma_inv();
                    lemma_regroup(
                        self.lexer.stream(),
                        lex_len_fn::<L::Output, T>(),
                        lexed_fn::<L::Output, T>(),
                    );
                    lemma_prepend(found.0, found.1, lexemes::<L::Output, T>(self.lexer.stream()));
                }
                Ok(found.0)
            },
            None => match self.read() {
                Ok(found) => {
                    proof {
                        self.lexer.lemma_inv();
                        lemma_regroup(
                            self.lexer.stream(),
                            lex_len_fn::<L::Output, T>(),
                            lexed_fn::<L::Output, T>(),
                        );
                        lemma_prepend(
                            found.0,
                            found.1,
                            lexemes::<L::Output, T>(self.lexer.stream()),
                        );
                    }
                    Ok(found.0)
                },
                Err(e) => Err(e),
            },
        }
    }

    fn peek(&mut self) -> (r: Result<Option<&T>, Error>) {
        proof {
            self.lemma_inv();
            self.lexer.lemma_inv();
        }
        if self.peek.is_none() {
            if self.lexer.is_empty() {
                return Ok(None);
            }
            match self.read() {
                Ok(found) => {
                    self.peek = Some(found);
                },
                Err(e) => {
                    return Err(e);
                },
            }
        }
        match &self.peek {
            Some(found) => Ok(Some(&found.0)),
            None => Ok(None),
        }
    }

    fn is_empty(&mut self) -> (r: bool) {
        proof {
            self.lemma_inv();
            self.lexer.lemma_inv();
        }
        if self.peek.is_some() {
            false
        } else {
            self.lexer.is_empty()
        }
    }

    fn fork(&mut self) -> (r: Self) {
        let peek = match &self.peek {
            Some(found) => {
                let value = found.0.clone();
                assert(cloned(found.0, value));
                Some((value, found.1))
            },
            None => None,
        };
        LexerParser { lexer: self.lexer.fork(), peek }
    }
}


/// A [`Lexer`] whose units are the productions `T` parsed from a parser.
///
/// A production that cannot be parsed ends the units, as the end of the input
/// does: a lexer has no way to tell the two apart.
pub struct ParserLexer<T, P> {
    inner: TokenParser<T, P>,
}

impl<T: Parse + Clone + PartialEq, P: Parser<T::Token>> ParserLexer<T, P> {
    /// The parser of productions that the lexer reads from.
    pub closed spec fn source(&self) -> TokenParser<T, P> {
        self.inner
    }

    /// A lexer of the productions `T` in the tokens of `parser`.
    #[inline]
    pub fn new(parser: P) -> (r: Self)
        requires
            parser.inv(),
            lawful::<T::Token>(),
            parse_deterministic::<T>(),
            clones_exactly::<T>(),
            obeys_concrete_eq::<T>(),
        ensures
            r.inv(),
            r.stream() == cleaned(productions::<T>(parser.stream())),
    {
        ParserLexer { inner: TokenParser::new(parser) }
    }
}

impl<T: Parse + Clone + PartialEq, P: Parser<T::Token>> Lexer for ParserLexer<T, P> {
    type Output = T;

    closed spec fn inv(&self) -> bool {
        self.inner.inv() && obeys_concrete_eq::<T>()
    }

    closed spec fn stream(&self) -> Stream<T> {
        cleaned(self.inner.stream())
    }

    proof fn lemma_inv(&self) {
        self.inner.lemma_inv();
    }

    #[inline]
    fn span(&mut self, length: usize) -> (s: Span) {
        self.inner.span(length)
    }

    #[inline]
    fn next(&mut self) -> (r: Option<T>) {
        match self.inner.next() {
            Ok(value) => Some(value),
            Err(_) => None,
        }
    }

    #[inline]
    fn peek(&mut self) -> (r: Option<&T>) {
        match self.inner.peek() {
            Ok(found) => found,
            Err(_) => None,
        }
    }

    #[inline]
    fn expect(&mut self, expected: T) -> (r: Result<(), Error>)
        ensures
            r matches Err(e) ==> e@.message == crate::error::expected_text(
                "the expected production"@,
            ),
    {
        proof {
            self.inner.lemma_inv();
            if self.inner.stream().len() > 0 {
                lemma_skip(self.inner.stream(), 1, 0);
            }
        }
        let at = self.inner.span(0);
        match self.inner.next() {
            Ok(found) => {
                proof {
                    reveal(obeys_concrete_eq);
                }
                if found == expected {
                    Ok(())
                } else {
                    let end = self.inner.span(0);
                    Err(
                        Error::expected(
                            at.with_len(end.offset - at.offset),
                            "the expected production",
                            "another production",
                        ),
                    )
                }
            },
            Err(_) => Err(Error::expected(at, "the expected production", "eof")),
        }
    }

    #[inline]
    fn fork(&mut self) -> (r: Self) {
        ParserLexer { inner: self.inner.fork() }
    }
}

/// The next level of a grammar over `parser`: a parser of the tokens `U`
/// that are lexed from the productions `T` of `parser`.
#[inline]
pub fn parse_as<T: Parse + Clone + PartialEq, U: Lex<T> + Clone, P: Parser<T::Token>>(
    parser: P,
) -> (r: LexerParser<ParserLexer<T, P>, U>)
    requires
        parser.inv(),
        lawful::<T::Token>(),
        parse_deterministic::<T>(),
        clones_exactly::<T>(),
        obeys_concrete_eq::<T>(),
        lex_deterministic::<T, U>(),
        clones_exactly::<U>(),
    ensures
        r.inv(),
        r.stream() == lexemes::<T, U>(cleaned(productions::<T>(parser.stream()))),
{
    LexerParser::new(ParserLexer::new(parser))
}

} // verus!
