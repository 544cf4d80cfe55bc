//! Source locations: where a piece of input came from, and how two locations
//! are joined into the smallest location that covers both.

use crate::error::Error;
use crate::parser::{try_parse, try_parse_len, Parse, Parser, StartSet, StartTokens};
use crate::stream::{lemma_skip, Stream};
use crate::string_allocator::{static_str, StringAllocator};
use crate::token::Token;
use std::ops::BitOr;
use vstd::prelude::*;
use vstd::std_specs::ops::BitOrSpecImpl;

verus! {

/// Names the document a [`Span`] points into.
#[derive(Clone, Copy, Debug, PartialEq, Eq, PartialOrd, Ord, Hash)]
pub enum SourcePath {
    /// A file, by the text of its path.
    Path(&'static str),
    Generated,
    Other(&'static str),
}

impl SourcePath {
    /// The path of a file, interned in `allocator`.
    pub fn path(allocator: &mut StringAllocator, path: &str) -> (source: SourcePath)
        ensures
            source matches SourcePath::Path(text) && text@ == path@,
            final(allocator)@ == old(allocator)@.insert(path@),
    {
        SourcePath::Path(static_str(allocator, path))
    }
}

/// A location in the source of a document.
#[derive(Clone, Copy, Debug, PartialEq, Eq, PartialOrd, Ord, Hash)]
pub struct Span {
    /// Path to source.
    pub path: SourcePath,
    /// Source.
    pub source: &'static str,
    /// Line in source.
    pub line: usize,
    /// Column in source.
    pub column: usize,
    /// Character offset in source.
    pub offset: usize,
    /// Length in characters.
    pub length: usize,
}

impl Span {
    /// The offset one past the last character covered.
    pub open spec fn end(self) -> int {
        self.offset + self.length
    }

    /// The end of the span is a machine integer.
    pub open spec fn wf(self) -> bool {
        self.end() <= usize::MAX
    }

    /// Both spans point into the same document.
    pub open spec fn same_source(self, other: Span) -> bool {
        self.path == other.path && self.source == other.source
    }

    /// The half-open interval of offsets that the span covers.
    pub open spec fn coverage(self) -> (int, int) {
        (self.offset as int, self.end())
    }

    /// The smallest span that covers `self` and `rhs`. Line and column are
    /// those of the operand that starts first, `self` on a tie.
    pub open spec fn merge(self, rhs: Span) -> Span {
        let offset = if self.offset <= rhs.offset { self.offset } else { rhs.offset };
        let end = if self.end() >= rhs.end() { self.end() } else { rhs.end() };
        Span {
            path: self.path,
            source: self.source,
            line: if self.offset > rhs.offset { rhs.line } else { self.line },
            column: if self.offset > rhs.offset { rhs.column } else { self.column },
            offset,
            length: (end - offset) as usize,
        }
    }

    /// The same position with another length.
    pub open spec fn with_length(self, length: usize) -> Span {
        Span { length, ..self }
    }

    /// The same position with another length.
    pub fn with_len(self, length: usize) -> (s: Span)
        ensures
            s == self.with_length(length),
    {
        Span { length, ..self }
    }

    /// A span of no length at the start of a document.
    pub fn start_of(path: SourcePath, source: &'static str) -> (s: Span)
        ensures
            s == (Span { path, source, line: 0, column: 0, offset: 0, length: 0 }),
    {
        Span { path, source, line: 0, column: 0, offset: 0, length: 0 }
    }

    /// The smallest span that covers `self` and `rhs`; `self | rhs` is the
    /// same.
    pub fn merged(self, rhs: Span) -> (out: Span)
        requires
            self.wf(),
            rhs.wf(),
            self.same_source(rhs),
        ensures
            out == self.merge(rhs),
    {
        let lhs_end = self.offset + self.length;
        let rhs_end = rhs.offset + rhs.length;
        let offset = if self.offset <= rhs.offset { self.offset } else { rhs.offset };
        let end = if lhs_end >= rhs_end { lhs_end } else { rhs_end };
        let (line, column) = if self.offset > rhs.offset {
            (rhs.line, rhs.column)
        } else {
            (self.line, self.column)
        };
        Span { path: self.path, source: self.source, line, column, offset, length: end - offset }
    }

    /// Joins `rhs` into `self`.
    pub fn merge_with(&mut self, rhs: Span)
        requires
            old(self).wf(),
            rhs.wf(),
            old(self).same_source(rhs),
        ensures
            *final(self) == old(self).merge(rhs),
    {
        *self = self.merged(rhs);
    }
}

impl BitOr for Span {
    type Output = Span;

    #[inline]
    fn bitor(self, rhs: Span) -> (out: Span) {
        self.merged(rhs)
    }
}

impl BitOrSpecImpl for Span {
    open spec fn obeys_bitor_spec() -> bool {
        true
    }

    open spec fn bitor_req(self, rhs: Span) -> bool {
        self.wf() && rhs.wf() && self.same_source(rhs)
    }

    open spec fn bitor_spec(self, rhs: Span) -> Span {
        self.merge(rhs)
    }
}

/// Joining keeps spans well formed and in their document.
pub proof fn lemma_merge_wf(a: Span, b: Span)
    requires
        a.wf(),
        b.wf(),
    ensures
        a.merge(b).wf(),
        a.merge(b).same_source(a),
        a.merge(b).offset <= a.offset,
        a.merge(b).offset <= b.offset,
        a.merge(b).end() >= a.end(),
        a.merge(b).end() >= b.end(),
{
}

/// What a join covers is the smallest interval that holds what both operands
/// cover, whichever operand comes first.
pub proof fn lemma_merge_coverage(a: Span, b: Span)
    requires
        a.wf(),
        b.wf(),
    ensures
        a.merge(b).coverage() == b.merge(a).coverage(),
        a.merge(b).coverage().0 == if a.offset <= b.offset { a.offset as int } else { b.offset as int },
        a.merge(b).coverage().1 == if a.end() >= b.end() { a.end() } else { b.end() },
{
}

/// Joining three spans covers the smallest interval that holds all three,
/// however the joins are grouped and ordered.
pub proof fn lemma_merge_associative(a: Span, b: Span, c: Span)
    requires
        a.wf(),
        b.wf(),
        c.wf(),
    ensures
        a.merge(b).merge(c).coverage() == a.merge(b.merge(c)).coverage(),
        a.merge(b).merge(c).coverage() == c.merge(a).merge(b).coverage(),
        a.merge(b).merge(c).coverage().0 <= a.offset,
        a.merge(b).merge(c).coverage().0 <= b.offset,
        a.merge(b).merge(c).coverage().0 <= c.offset,
        a.merge(b).merge(c).coverage().0 == a.offset
            || a.merge(b).merge(c).coverage().0 == b.offset
            || a.merge(b).merge(c).coverage().0 == c.offset,
        a.merge(b).merge(c).coverage().1 >= a.end(),
        a.merge(b).merge(c).coverage().1 >= b.end(),
        a.merge(b).merge(c).coverage().1 >= c.end(),
        a.merge(b).merge(c).coverage().1 == a.end()
            || a.merge(b).merge(c).coverage().1 == b.end()
            || a.merge(b).merge(c).coverage().1 == c.end(),
{
    lemma_merge_wf(a, b);
    lemma_merge_wf(b, c);
    lemma_merge_wf(c, a);
}

/// A value that knows where in the source it was read.
pub trait Spanned {
    /// Where the value was read, as contracts speak of it.
    open spec fn span_spec(&self) -> Span {
        arbitrary()
    }

    /// Where the value was read.
    fn span(&self) -> (s: Span)
        ensures
            s == self.span_spec(),
    ;
}

/// What is boxed was read where its content was.
impl<T: Spanned> Spanned for Box<T> {
    #[inline]
    fn span(&self) -> (s: Span) {
        (**self).span()
    }

    open spec fn span_spec(&self) -> Span {
        (**self).span_spec()
    }
}

impl Spanned for Span {
    #[inline]
    fn span(&self) -> (s: Span)
        ensures
            s == *self,
    {
        *self
    }

    open spec fn span_spec(&self) -> Span {
        *self
    }
}

/// A production that may be absent, with the place where it stands or would
/// have stood.
#[derive(Debug)]
pub struct SpannedOption<T> {
    pub span: Span,
    pub value: Option<T>,
}

impl<T> Spanned for SpannedOption<T> {
    #[inline]
    fn span(&self) -> (s: Span)
        ensures
            s == self.span,
    {
        self.span
    }

    open spec fn span_spec(&self) -> Span {
        self.span
    }
}

impl<T: Parse> Parse for SpannedOption<T> {
    type Token = T::Token;

    open spec fn start_spec() -> StartSet<<T::Token as Token>::Kind> {
        T::start_spec()
    }

    open spec fn parse_len(input: Stream<T::Token>) -> Option<nat> {
        match try_parse_len::<T>(input) {
            Ok(Some(n)) => Some(n),
            Ok(None) => Some(0),
            Err(_) => None,
        }
    }

    open spec fn parse_value(input: Stream<T::Token>, value: Self) -> bool {
        &&& value.span == input.here().merge(input.skip(Self::parse_len(input)->0 as int).here())
        &&& match try_parse_len::<T>(input) {
            Ok(Some(_)) => value.value matches Some(inner) && T::parse_value(input, inner),
            _ => value.value is None,
        }
    }

    fn start() -> (s: StartTokens<<T::Token as Token>::Kind>) {
        T::start()
    }

    #[inline]
    fn parse<S: Parser<T::Token>>(parser: &mut S) -> (r: Result<Self, Error>) {
        let ghost input = parser.stream();
        proof {
            parser.lemma_inv();
            lemma_skip(input, 0, 0);
        }
        let span = parser.span(0);
        match try_parse::<T, S>(parser) {
            Ok(value) => {
                proof {
                    lemma_skip(input, Self::parse_len(input)->0 as int, 0);
                }
                let end = parser.span(0);
                Ok(SpannedOption { span: span.merged(end), value })
            },
            Err(e) => Err(e),
        }
    }
}

} // verus!
