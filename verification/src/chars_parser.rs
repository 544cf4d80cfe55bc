//! A parser whose tokens are the characters of a text.

use crate::error::Error;
use crate::parser::{
    lemma_skip_ws, lemma_tokens, lemma_tokens_step, skip_whitespace, tokens, Parser,
};
use crate::span::{SourcePath, Span};
use crate::stream::{lemma_skip, Stream};
use crate::token::{char_stream, lexed, CharsLexer, Lex, Lexer};
use vstd::prelude::*;

verus! {

/// Hands out the characters of a text one by one, all of them or all but the
/// white space.
pub struct CharsParser {
    skip_whitespace: bool,
    lexer: CharsLexer,
}

impl CharsParser {
    /// White space is passed over.
    pub closed spec fn skips(&self) -> bool {
        self.skip_whitespace
    }

    /// The lexer that the characters are read from.
    pub closed spec fn source(&self) -> CharsLexer {
        self.lexer
    }

    /// A parser of every character of `chars`.
    #[inline]
    pub fn new(chars: &'static str) -> (parser: CharsParser)
        ensures
            parser.inv(),
            !parser.skips(),
            parser.stream() == char_stream(
                Span {
                    path: SourcePath::Generated,
                    source: chars,
                    line: 0,
                    column: 0,
                    offset: 0,
                    length: 0,
                },
                chars@,
            ),
    {
        CharsParser { skip_whitespace: false, lexer: CharsLexer::new(chars, SourcePath::Generated) }
    }

    /// The same parser, which passes over white space if `skip` says so.
    #[inline]
    pub fn skip_whitespace(self, skip: bool) -> (parser: CharsParser)
        requires
            self.inv(),
        ensures
            parser.inv(),
            parser.skips() == skip,
            parser.source() == self.source(),
    {
        let mut parser = self;
        parser.skip_whitespace = skip;
        parser
    }

    /// Moves the lexer past white space, where the parser passes over it.
    fn settle(&mut self)
        requires
            old(self).inv(),
        ensures
            final(self).inv(),
            final(self).stream() == old(self).stream(),
            final(self).skip_whitespace == old(self).skip_whitespace,
            final(self).lexer.stream().wf(),
            final(self).skip_whitespace ==> crate::parser::ws_len(final(self).lexer.stream().units)
                == 0,
    {
        proof {
            self.lexer.lemma_inv();
            lemma_skip_ws::<char>(self.lexer.stream());
        }
        if self.skip_whitespace {
            skip_whitespace(&mut self.lexer);
        }
        proof {
            self.lexer.lemma_inv();
        }
    }
}

impl Parser<char> for CharsParser {
    closed spec fn inv(&self) -> bool {
        self.lexer.inv()
    }

    closed spec fn stream(&self) -> Stream<char> {
        if self.skip_whitespace {
            tokens::<char>(self.lexer.stream())
        } else {
            self.lexer.stream()
        }
    }

    proof fn lemma_inv(&self) {
        self.lexer.lemma_inv();
        lemma_tokens::<char>(self.lexer.stream());
    }

    fn span(&mut self, length: usize) -> (s: Span) {
        self.settle();
        proof {
            lemma_tokens::<char>(self.lexer.stream());
            lemma_skip_ws::<char>(self.lexer.stream());
        }
        self.lexer.span(length)
    }

    fn next(&mut self) -> (r: Result<char, Error>) {
        self.settle();
        let ghost input = self.lexer.stream();
        proof {
            if self.skip_whitespace {
                lemma_tokens_step::<char>(input);
            }
            lemma_skip(input, 0, 0);
            if input.len() > 0 {
                lemma_skip(input, 1, 0);
            }
        }
        let at = self.lexer.span(0);
        match self.lexer.next() {
            Some(c) => {
                assert(<char as Lex<char>>::lex_value(input, c));
                assert(<char as Lex<char>>::lex_value(input, lexed::<char, char>(input)));
                Ok(c)
            },
            None => Err(Error::unexpected_eof(at)),
        }
    }

    fn peek(&mut self) -> (r: Result<Option<&char>, Error>) {
        self.settle();
        let ghost input = self.lexer.stream();
        proof {
            if self.skip_whitespace {
                lemma_tokens_step::<char>(input);
            }
            if input.len() > 0 {
                assert(<char as Lex<char>>::lex_value(input, input.units[0]));
                assert(<char as Lex<char>>::lex_value(input, lexed::<char, char>(input)));
            }
        }
        Ok(self.lexer.peek())
    }

    fn is_empty(&mut self) -> (r: bool) {
        self.settle();
        proof {
            if self.skip_whitespace {
                lemma_tokens_step::<char>(self.lexer.stream());
            }
        }
        self.lexer.is_empty()
    }

    fn fork(&mut self) -> (r: CharsParser) {
        CharsParser { skip_whitespace: self.skip_whitespace, lexer: self.lexer.fork() }
    }
}

} // verus!
