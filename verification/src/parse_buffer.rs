//! A buffer of tokens that were collected from one parser and are parsed
//! again, on their own, by another production.

use crate::error::Error;
use crate::parser::{productions, Nothing, Parse, Parser, StartSet, StartTokens};
use crate::span::{SourcePath, Span};
use crate::stream::{lemma_regroup, lemma_skip, Stream};
use crate::token::{clones_exactly, lawful, Token};
use crate::vec::{
    at_stop, element_len, lemma_list_more, lemma_list_start, lemma_list_stop, list_after,
    list_extends, list_items, list_len, parse_element,
};
use vstd::prelude::*;

verus! {

/// An ordered, appendable sequence of tokens, each with the position at which
/// it starts, and the position at which the sequence ends.
///
/// As a [`Parser`] the buffer hands its tokens out from the front; it ends
/// cleanly after the last one.
#[derive(Debug)]
pub struct ParseBuffer<Token> {
    pub(crate) tokens: Vec<Token>,
    pub(crate) marks: Vec<Span>,
}

impl<Token> ParseBuffer<Token> {
    /// The tokens that the buffer holds, first to last.
    pub closed spec fn tokens(&self) -> Seq<Token> {
        self.tokens@
    }

    /// The position at which each token starts, and after them the position at
    /// which the buffer ends.
    pub closed spec fn marks(&self) -> Seq<Span> {
        self.marks@
    }

    /// What the buffer holds, as a stream.
    pub open spec fn content(&self) -> Stream<Token> {
        Stream { units: self.tokens(), marks: self.marks(), clean: true }
    }

    /// The position at which the buffer ends.
    pub open spec fn end(&self) -> Span {
        self.marks().last()
    }

    /// The position one place after `at`.
    pub open spec fn place_after(at: Span) -> Span {
        Span { offset: (at.offset + 1) as usize, ..at }
    }

    /// An empty buffer at the start of a generated document.
    #[inline]
    pub fn new() -> (buffer: Self)
        ensures
            buffer.content().wf(),
            buffer.tokens() == Seq::<Token>::empty(),
            buffer.marks() == seq![
                Span {
                    path: SourcePath::Generated,
                    source: "",
                    line: 0,
                    column: 0,
                    offset: 0,
                    length: 0,
                },
            ],
    {
        Self::starting_at(Span::start_of(SourcePath::Generated, ""))
    }

    /// An empty buffer that starts, and so far ends, at the position of
    /// `at`.
    pub fn starting_at(at: Span) -> (buffer: Self)
        ensures
            buffer.content().wf(),
            buffer.tokens() == Seq::<Token>::empty(),
            buffer.marks() == seq![at.with_length(0)],
    {
        let mut marks: Vec<Span> = Vec::new();
        marks.push(at.with_len(0));
        ParseBuffer { tokens: Vec::new(), marks }
    }

    /// Puts `token` at the end of the buffer, one place wide: the buffer then
    /// ends one place further on.
    #[inline]
    pub fn push(&mut self, token: Token)
        requires
            old(self).content().wf(),
            old(self).end().offset < usize::MAX,
        ensures
            final(self).content().wf(),
            final(self).tokens() == old(self).tokens().push(token),
            final(self).marks() == old(self).marks().push(Self::place_after(old(self).end())),
    {
        let end = self.marks[self.marks.len() - 1];
        self.push_until(token, Span { offset: end.offset + 1, ..end });
    }

    /// Puts `token` at the end of the buffer. The token starts where the
    /// buffer ended, and the buffer then ends at `end`.
    pub fn push_until(&mut self, token: Token, end: Span)
        requires
            old(self).content().wf(),
            end.length == 0,
            end.same_source(old(self).end()),
            old(self).end().offset < end.offset,
        ensures
            final(self).content().wf(),
            final(self).tokens() == old(self).tokens().push(token),
            final(self).marks() == old(self).marks().push(end),
    {
        self.tokens.push(token);
        self.marks.push(end);
        proof {
            let before = old(self).marks@;
            let after = self.marks@;
            assert forall|i: int| 0 <= i < after.len() implies (#[trigger] after[i]).length == 0
                && after[i].same_source(after[0]) by {
                if i < before.len() {
                    assert(after[i] == before[i]);
                } else {
                    assert(before.last().same_source(before[0]));
                }
            }
            assert forall|i: int, j: int| 0 <= i < j < after.len() implies (#[trigger] after[i]).offset
                < (#[trigger] after[j]).offset by {
                assert(after[i] == before[i]);
                if j < before.len() {
                    assert(after[j] == before[j]);
                } else if i < before.len() - 1 {
                    assert(before[i].offset < before[before.len() - 1].offset);
                }
            }
        }
    }

    /// The number of tokens in the buffer.
    pub fn len(&self) -> (n: usize)
        requires
            self.content().wf(),
        ensures
            n == self.tokens().len(),
            n < usize::MAX,
    {
        assert(self.marks.len() == self.marks@.len());
        self.tokens.len()
    }
}

impl<Token: Clone> Parser<Token> for ParseBuffer<Token> {
    closed spec fn inv(&self) -> bool {
        self.content().wf() && clones_exactly::<Token>()
    }

    open spec fn stream(&self) -> Stream<Token> {
        self.content()
    }

    proof fn lemma_inv(&self) {
    }

    fn span(&mut self, length: usize) -> (s: Span) {
        self.marks[0].with_len(length)
    }

    fn next(&mut self) -> (r: Result<Token, Error>) {
        if self.tokens.is_empty() {
            Err(Error::unexpected_eof(self.marks[0]))
        } else {
            let token = self.tokens.remove(0);
            let _ = self.marks.remove(0);
            proof {
                let s = old(self).content();
                assert(self.tokens@ =~= s.units.skip(1));
                assert(self.marks@ =~= s.marks.skip(1));
                crate::stream::lemma_skip(s, 1, 0);
            }
            Ok(token)
        }
    }

    fn peek(&mut self) -> (r: Result<Option<&Token>, Error>) {
        if self.tokens.is_empty() {
            Ok(None)
        } else {
            Ok(Some(&self.tokens[0]))
        }
    }

    fn is_empty(&mut self) -> (r: bool) {
        self.tokens.is_empty()
    }

    fn fork(&mut self) -> (r: Self) {
        let tokens = self.tokens.clone();
        let marks = self.marks.clone();
        proof {
            assert forall|i: int| 0 <= i < tokens@.len() implies tokens@[i] == self.tokens@[i] by {
                assert(cloned(self.tokens@[i], tokens@[i]));
            }
            assert(tokens@ =~= self.tokens@);
            assert(marks@ =~= self.marks@);
        }
        ParseBuffer { tokens, marks }
    }
}

/// Makes a buffer usable as a parser: this holds of every well-formed buffer
/// whose tokens clone exactly.
pub proof fn lemma_buffer_inv<Token: Clone>(buffer: ParseBuffer<Token>)
    requires
        buffer.content().wf(),
        clones_exactly::<Token>(),
    ensures
        buffer.inv(),
{
}

impl<Token> Default for ParseBuffer<Token> {
    #[inline]
    fn default() -> (buffer: Self)
        ensures
            buffer.content().wf(),
            buffer.tokens() == Seq::<Token>::empty(),
            buffer.marks() == seq![
                Span {
                    path: SourcePath::Generated,
                    source: "",
                    line: 0,
                    column: 0,
                    offset: 0,
                    length: 0,
                },
            ],
    {
        Self::new()
    }
}

/// A buffer of productions: one `X` after another to the end of the input,
/// each at the position at which it was read.
impl<X: Parse> Parse for ParseBuffer<X> {
    type Token = X::Token;

    open spec fn start_spec() -> StartSet<<X::Token as Token>::Kind> {
        X::start_spec()
    }

    open spec fn parse_len(input: Stream<X::Token>) -> Option<nat> {
        match list_len::<X, Nothing<X::Token>>(input) {
            Some((m, _)) => Some(m),
            None => None,
        }
    }

    open spec fn parse_value(input: Stream<X::Token>, value: Self) -> bool {
        &&& list_items::<X, Nothing<X::Token>>(input, value.tokens())
        &&& value.marks() == productions::<X>(input).marks
        &&& value.content().wf()
    }

    fn start() -> (s: StartTokens<<X::Token as Token>::Kind>) {
        X::start()
    }

    fn parse<S: Parser<X::Token>>(parser: &mut S) -> (r: Result<Self, Error>) {
        let ghost start = parser.stream();
        proof {
            parser.lemma_inv();
            lemma_skip(start, 0, 0);
            lemma_list_start::<X, Nothing<X::Token>>(start);
        }
        let at = parser.span(0);
        let mut buffer: ParseBuffer<X> = ParseBuffer::starting_at(at);
        let ghost mut k: nat = 0;
        assert(productions::<X>(start).marks =~= buffer.marks().drop_last() + productions::<X>(
            start,
        ).marks);
        loop
            invariant_except_break
                list_len::<X, Nothing<X::Token>>(start) == list_after(
                    list_len::<X, Nothing<X::Token>>(start.skip(k as int)),
                    k,
                    buffer.tokens().len(),
                ),
                list_extends::<X, Nothing<X::Token>>(start, start.skip(k as int), buffer.tokens()),
            invariant
                parser.inv(),
                lawful::<X::Token>(),
                start.wf(),
                start == old(parser).stream(),
                k <= start.len(),
                parser.stream() == start.skip(k as int),
                buffer.content().wf(),
                buffer.end() == start.skip(k as int).here(),
                productions::<X>(start).marks == buffer.marks().drop_last() + productions::<X>(
                    start.skip(k as int),
                ).marks,
                k > 0 ==> X::start_spec().contains(start.units[0].kind_spec()),
            ensures
                parser.inv(),
                k <= start.len(),
                parser.stream() == start.skip(k as int),
                list_len::<X, Nothing<X::Token>>(start) == Some((k, buffer.tokens().len())),
                list_items::<X, Nothing<X::Token>>(start, buffer.tokens()),
                buffer.content().wf(),
                buffer.marks() == productions::<X>(start).marks,
                k > 0 ==> X::start_spec().contains(start.units[0].kind_spec()),
            decreases start.len() - k,
        {
            let ghost cur = start.skip(k as int);
            let ghost had = buffer.tokens();
            let ghost marks = buffer.marks();
            proof {
                lemma_skip(start, k as int, 0);
                lemma_regroup(
                    cur,
                    crate::parser::parse_len_fn::<X>(),
                    crate::parser::parsed_fn::<X>(),
                );
            }
            match at_stop::<Nothing<X::Token>, S>(parser) {
                Some(_) => {
                    proof {
                        lemma_list_stop::<X, Nothing<X::Token>>(start, cur, had);
                        assert(productions::<X>(cur).marks =~= seq![cur.here()]);
                        assert(marks.drop_last() + seq![cur.here()] =~= marks);
                    }
                    break;
                },
                None => {},
            }
            let value = match parse_element::<X, S>(parser) {
                Ok(value) => value,
                Err(e) => {
                    return Err(e);
                },
            };
            let ghost n = element_len::<X>(cur)->0;
            proof {
                lemma_skip(start, k as int, n as int);
                lemma_skip(cur, n as int, 0);
            }
            let end = parser.span(0);
            buffer.push_until(value, end);
            proof {
                lemma_list_more::<X, Nothing<X::Token>>(start, cur, had, value, n);
                let rest = productions::<X>(cur.skip(n as int)).marks;
                assert(productions::<X>(cur).marks =~= seq![cur.here()] + rest);
                assert(buffer.marks().drop_last() =~= marks);
                assert(marks.drop_last() + (seq![cur.here()] + rest) =~= marks + rest);
                k = k + n;
            }
        }
        Ok(buffer)
    }
}

} // verus!
