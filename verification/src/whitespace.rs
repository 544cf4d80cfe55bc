//! White space as a production over characters, and productions with white
//! space around them.

use crate::error::Error;
use crate::parser::{
    lemma_skip_ws, lemma_ws_len, parse_deterministic, skip_ws, ws_len, Parse, Parser,
    StartTokens,
};
use crate::span::Span;
use crate::stream::{lemma_skip, Stream};
use crate::token::{clones_exactly, is_whitespace};
use crate::token_parser::TokenParser;
use vstd::prelude::*;

verus! {

/// Any number of white-space characters, none included.
#[derive(Clone, Copy, Debug, Default, PartialEq, Eq, PartialOrd, Ord, Hash)]
pub struct Whitespace;

impl Parse for Whitespace {
    type Token = char;

    open spec fn parse_len(input: Stream<char>) -> Option<nat> {
        Some(ws_len(input.units))
    }

    open spec fn parse_value(input: Stream<char>, value: Whitespace) -> bool {
        true
    }

    fn start() -> (s: StartTokens<char>) {
        proof {
            StartTokens::<char>::lemma_leaves(' ', StartTokens::All);
        }
        StartTokens::All
    }

    /// Consumes the white space in front of the parser. This cannot fail.
    #[inline]
    fn parse<S: Parser<char>>(parser: &mut S) -> (r: Result<Whitespace, Error>) {
        let ghost start = parser.stream();
        proof {
            parser.lemma_inv();
            lemma_ws_len(start.units);
        }
        loop
            invariant
                parser.inv(),
                parser.stream().wf(),
                start == old(parser).stream(),
                skip_ws(parser.stream()) == skip_ws(start),
            ensures
                parser.inv(),
                parser.stream() == skip_ws(start),
            decreases parser.stream().len(),
        {
            let ghost cur = parser.stream();
            proof {
                lemma_skip_ws::<char>(cur);
                lemma_ws_len(cur.units);
            }
            let white = match parser.peek() {
                Ok(Some(c)) => is_whitespace(*c),
                _ => false,
            };
            if !white {
                break;
            }
            let _ = parser.next();
            proof {
                lemma_skip(cur, 1, 0);
            }
        }
        Ok(Whitespace)
    }
}

/// Productions `T` with white space between them.
pub type SeparateWhitespace<T> = crate::punctuated::Punctuated<T, Whitespace>;

/// A `T` with white space before and after it.
#[derive(Debug, Default, PartialEq, Eq, PartialOrd, Ord, Hash)]
pub struct WhitespacePadded<T> {
    pub left_padding: Whitespace,
    pub value: T,
    pub right_padding: Whitespace,
}

impl<T: Clone> Clone for WhitespacePadded<T> {
    fn clone(&self) -> (copy: Self)
        ensures
            cloned(self.value, copy.value),
    {
        WhitespacePadded {
            left_padding: Whitespace,
            value: self.value.clone(),
            right_padding: Whitespace,
        }
    }
}

impl<T: Parse<Token = char>> WhitespacePadded<T> {
    /// The input after the white space in front of it.
    pub open spec fn inner(input: Stream<char>) -> Stream<char> {
        skip_ws(input)
    }

    /// The input after the white space in front of it and the `T` that
    /// follows.
    pub open spec fn trailing(input: Stream<char>) -> Stream<char> {
        skip_ws(input).skip(T::parse_len(skip_ws(input))->0 as int)
    }
}

impl<T: Parse<Token = char>> Parse for WhitespacePadded<T> {
    type Token = char;

    open spec fn parse_len(input: Stream<char>) -> Option<nat> {
        match T::parse_len(Self::inner(input)) {
            Some(n) => if n <= Self::inner(input).len() {
                Some(ws_len(input.units) + n + ws_len(Self::trailing(input).units))
            } else {
                None
            },
            None => None,
        }
    }

    open spec fn parse_value(input: Stream<char>, value: Self) -> bool {
        T::parse_value(Self::inner(input), value.value)
    }

    fn start() -> (s: StartTokens<char>) {
        proof {
            StartTokens::<char>::lemma_leaves(' ', StartTokens::All);
        }
        StartTokens::All
    }

    #[inline]
    fn parse<S: Parser<char>>(parser: &mut S) -> (r: Result<Self, Error>) {
        let ghost input = parser.stream();
        proof {
            parser.lemma_inv();
            lemma_skip_ws::<char>(input);
            lemma_ws_len(input.units);
        }
        let left_padding = match Whitespace::parse(parser) {
            Ok(padding) => padding,
            Err(e) => {
                return Err(e);
            },
        };
        let value = match T::parse(parser) {
            Ok(value) => value,
            Err(e) => {
                return Err(e);
            },
        };
        let ghost n = T::parse_len(skip_ws(input))->0;
        proof {
            lemma_skip(skip_ws(input), n as int, 0);
            lemma_skip_ws::<char>(Self::trailing(input));
            lemma_ws_len(Self::trailing(input).units);
            lemma_skip(input, ws_len(input.units) as int, n as int);
            lemma_skip(
                input,
                (ws_len(input.units) + n) as int,
                ws_len(Self::trailing(input).units) as int,
            );
        }
        let right_padding = match Whitespace::parse(parser) {
            Ok(padding) => padding,
            Err(e) => {
                return Err(e);
            },
        };
        Ok(WhitespacePadded { left_padding, value, right_padding })
    }
}

/// A padded `T` is determined by its `T`, and clones as its `T` does.
pub proof fn lemma_padded_lawful<T: Parse<Token = char> + Clone>()
    requires
        parse_deterministic::<T>(),
        clones_exactly::<T>(),
    ensures
        parse_deterministic::<WhitespacePadded<T>>(),
        clones_exactly::<WhitespacePadded<T>>(),
{
    assert forall|input: Stream<char>, a: WhitespacePadded<T>, b: WhitespacePadded<T>|
        #![trigger WhitespacePadded::<T>::parse_value(input, a), WhitespacePadded::<T>::parse_value(input, b)]
        WhitespacePadded::<T>::parse_value(input, a) && WhitespacePadded::<T>::parse_value(
            input,
            b,
        ) implies a == b by {
        assert(T::parse_value(skip_ws(input), a.value));
        assert(T::parse_value(skip_ws(input), b.value));
    }
    assert forall|a: WhitespacePadded<T>, b: WhitespacePadded<T>| #[trigger]
        cloned(a, b) implies a == b by {
        if a != b {
            assert(cloned(a.value, b.value));
        }
    }
}

/// The values of the padded productions of `padded`, at the same positions.
pub open spec fn values_of<T>(padded: Stream<WhitespacePadded<T>>) -> Stream<T> {
    Stream {
        units: Seq::new(padded.units.len(), |i: int| padded.units[i].value),
        marks: padded.marks,
        clean: padded.clean,
    }
}

/// A parser of the productions `Out` in a parser of characters, with the
/// white space around each of them consumed.
pub struct WhitespaceParser<Out, P> {
    inner: TokenParser<WhitespacePadded<Out>, P>,
}

impl<Out: Parse<Token = char> + Clone, P: Parser<char>> WhitespaceParser<Out, P> {
    /// The parser of padded productions that this one reads from.
    pub closed spec fn source(&self) -> TokenParser<WhitespacePadded<Out>, P> {
        self.inner
    }

    /// A parser of the productions `Out` in the characters of `parser`.
    #[inline]
    pub fn new(parser: P) -> (r: Self)
        requires
            parser.inv(),
            parse_deterministic::<Out>(),
            clones_exactly::<Out>(),
        ensures
            r.inv(),
            r.stream() == values_of(
                crate::parser::productions::<WhitespacePadded<Out>>(parser.stream()),
            ),
    {
        proof {
            lemma_padded_lawful::<Out>();
            crate::token::lemma_char_lawful();
        }
        WhitespaceParser { inner: TokenParser::new(parser) }
    }
}

impl<Out: Parse<Token = char> + Clone, P: Parser<char>> Parser<Out> for WhitespaceParser<Out, P> {
    closed spec fn inv(&self) -> bool {
        self.inner.inv()
    }

    closed spec fn stream(&self) -> Stream<Out> {
        values_of(self.inner.stream())
    }

    proof fn lemma_inv(&self) {
        self.inner.lemma_inv();
    }

    fn span(&mut self, length: usize) -> (s: Span) {
        self.inner.span(length)
    }

    fn next(&mut self) -> (r: Result<Out, Error>) {
        let ghost before = self.inner.stream();
        match self.inner.next() {
            Ok(padded) => {
                assert(values_of(before.skip(1)).units =~= values_of(before).skip(1).units);
                Ok(padded.value)
            },
            Err(e) => Err(e),
        }
    }

    fn peek(&mut self) -> (r: Result<Option<&Out>, Error>) {
        match self.inner.peek() {
            Ok(Some(padded)) => Ok(Some(&padded.value)),
            Ok(None) => Ok(None),
            Err(e) => Err(e),
        }
    }

    fn is_empty(&mut self) -> (r: bool) {
        self.inner.is_empty()
    }

    fn fork(&mut self) -> (r: Self) {
        WhitespaceParser { inner: self.inner.fork() }
    }
}

} // verus!
