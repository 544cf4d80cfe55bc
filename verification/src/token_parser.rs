//! A parser whose tokens are the productions that another parser's tokens
//! make up: the next level of a layered grammar.

use crate::error::{Error, ErrorKind};
use crate::parser::{parse_deterministic, parsed, productions, Parse, Parser};
use crate::span::Span;
use crate::stream::{lemma_prepend, lemma_regroup, lemma_skip, prepend, with_peek, Stream};
use crate::token::{clones_exactly, lawful};
use vstd::prelude::*;

verus! {

/// Reads productions `Out` from `parser` and hands them out as tokens.
///
/// Each production is parsed on a fork, which is committed where the
/// production consumed input. At most one production that has been looked at
/// is kept, with the position at which it starts.
pub struct TokenParser<Out, P> {
    pub(crate) parser: P,
    pub(crate) peek: Option<(Out, Span)>,
}

impl<Out: Parse + Clone, P: Parser<Out::Token>> TokenParser<Out, P> {
    /// The parser that the productions are read from.
    pub closed spec fn source(&self) -> P {
        self.parser
    }

    /// The production that has been looked at and not consumed, with the
    /// position at which it starts.
    pub closed spec fn peeked(&self) -> Option<(Out, Span)> {
        self.peek
    }

    /// A parser of the productions `Out` in the tokens of `parser`.
    #[inline]
    pub fn new(parser: P) -> (r: Self)
        requires
            parser.inv(),
            lawful::<Out::Token>(),
            parse_deterministic::<Out>(),
            clones_exactly::<Out>(),
        ensures
            r.inv(),
            r.source() == parser,
            r.peeked() is None,
            r.stream() == productions::<Out>(parser.stream()),
    {
        TokenParser { parser, peek: None }
    }

    /// Parses one production on a fork, and commits the fork where the
    /// production consumed input.
    fn read(&mut self) -> (r: Result<(Out, Span), Error>)
        requires
            old(self).parser.inv(),
            lawful::<Out::Token>(),
            parse_deterministic::<Out>(),
        ensures
            final(self).parser.inv(),
            final(self).peek == old(self).peek,
            productions::<Out>(old(self).parser.stream()).len() > 0 ==> (r matches Ok(found)
                && prepend(found.0, found.1, productions::<Out>(final(self).parser.stream()))
                == productions::<Out>(old(self).parser.stream())
                && found.1 == old(self).parser.stream().here()
                && found.1.length == 0
                && found.1.offset < productions::<Out>(
                final(self).parser.stream(),
            ).here().offset
                && found.1.same_source(productions::<Out>(final(self).parser.stream()).here())),
            productions::<Out>(old(self).parser.stream()).len() == 0 ==> final(self).parser.stream() == old(self).parser.stream() && (r matches Err(e) && e@.span is Some
                && (productions::<Out>(old(self).parser.stream()).clean ==> e@.kind
                == ErrorKind::UnexpectedEof && e@.span == Some(
                old(self).parser.stream().here(),
            ))),
    {
        let ghost input = self.parser.stream();
        proof {
            self.parser.lemma_inv();
            lemma_skip(input, 0, 0);
            lemma_regroup(
                input,
                crate::parser::parse_len_fn::<Out>(),
                crate::parser::parsed_fn::<Out>(),
            );
        }
        let at = self.parser.span(0);
        if self.parser.is_empty() {
            return Err(Error::unexpected_eof(at));
        }
        let mut fork = self.parser.fork();
        match Out::parse(&mut fork) {
            Ok(value) => {
                let after = fork.span(0);
                proof {
                    lemma_skip(input, Out::parse_len(input)->0 as int, 0);
                }
                if after.offset == at.offset {
                    Err(Error::spanned(at, "a production must consume input"))
                } else {
                    self.parser = fork;
                    assert(value == parsed::<Out>(input));
                    Ok((value, at))
                }
            },
            Err(e) => Err(e),
        }
    }
}

impl<Out: Parse + Clone, P: Parser<Out::Token>> Parser<Out> for TokenParser<Out, P> {
    closed spec fn inv(&self) -> bool {
        &&& self.parser.inv()
        &&& lawful::<Out::Token>()
        &&& parse_deterministic::<Out>()
        &&& clones_exactly::<Out>()
        &&& self.peek matches Some(found) ==> found.1.length == 0 && found.1.same_source(
            productions::<Out>(self.parser.stream()).here(),
        ) && found.1.offset < productions::<Out>(self.parser.stream()).here().offset
    }

    closed spec fn stream(&self) -> Stream<Out> {
        with_peek(self.peek, productions::<Out>(self.parser.stream()))
    }

    proof fn lemma_inv(&self) {
        self.parser.lemma_inv();
        lemma_regroup(
            self.parser.stream(),
            crate::parser::parse_len_fn::<Out>(),
            crate::parser::parsed_fn::<Out>(),
        );
        match self.peek {
            Some(found) => {
                lemma_prepend(found.0, found.1, productions::<Out>(self.parser.stream()));
            },
            None => {},
        }
    }

    fn span(&mut self, length: usize) -> (s: Span) {
        proof {
            self.lemma_inv();
        }
        match &self.peek {
            Some(found) => found.1.with_len(length),
            None => self.parser.span(length),
        }
    }

    fn next(&mut self) -> (r: Result<Out, Error>) {
        proof {
            self.lemma_inv();
        }
        match self.peek.take() {
            Some(found) => {
                proof {
                    self.parser.lemma_inv();
                    lemma_regroup(
                        self.parser.stream(),
                        crate::parser::parse_len_fn::<Out>(),
                        crate::parser::parsed_fn::<Out>(),
                    );
                    lemma_prepend(found.0, found.1, productions::<Out>(self.parser.stream()));
                }
                Ok(found.0)
            },
            None => match self.read() {
                Ok(found) => {
                    proof {
                        self.parser.lemma_inv();
                        lemma_regroup(
                            self.parser.stream(),
                            crate::parser::parse_len_fn::<Out>(),
                            crate::parser::parsed_fn::<Out>(),
                        );
                        lemma_prepend(
                            found.0,
                            found.1,
                            productions::<Out>(self.parser.stream()),
                        );
                    }
                    Ok(found.0)
                },
                Err(e) => Err(e),
            },
        }
    }

    fn peek(&mut self) -> (r: Result<Option<&Out>, Error>) {
        proof {
            self.lemma_inv();
        }
        if self.peek.is_none() {
            if self.parser.is_empty() {
                return Ok(None);
            }
            match self.read() {
                Ok(found) => {
                    self.peek = Some(found);
                },
                Err(e) => {
                    return Err(e);
                },
            }
        }
        match &self.peek {
            Some(found) => Ok(Some(&found.0)),
            None => Ok(None),
        }
    }

    fn is_empty(&mut self) -> (r: bool) {
        proof {
            self.lemma_inv();
        }
        if self.peek.is_some() {
            false
        } else {
            self.parser.is_empty()
        }
    }

    fn fork(&mut self) -> (r: Self) {
        let peek = match &self.peek {
            Some(found) => {
                let value = found.0.clone();
                assert(cloned(found.0, value));
                Some((value, found.1))
            },
            None => None,
        };
        TokenParser { parser: self.parser.fork(), peek }
    }
}

} // verus!
