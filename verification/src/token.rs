//! Tokens and the lexers that read them from a stream of source units.

use crate::error::{expected_text, found_text, Error, ErrorKind};
use crate::span::{SourcePath, Span};
use crate::stream::{lemma_skip, Stream};
use std::rc::Rc;
use vstd::prelude::*;

verus! {

/// A small, copyable tag that says what grammatical category a token has.
pub trait TokenKind: Copy + PartialEq + Eq + 'static {
    /// The name of the kind, as contracts speak of it.
    open spec fn name_spec(&self) -> Seq<char> {
        arbitrary()
    }

    /// The name of the kind, for messages.
    fn name(&self) -> (name: &str)
        ensures
            name@ == self.name_spec(),
    ;

    /// Whether two kinds are the same kind.
    fn same(&self, other: &Self) -> (same: bool)
        ensures
            same == (*self == *other),
    ;
}

/// A cursor over source units.
///
/// Every implementation describes what it will read as a [`Stream`]; the
/// contracts below say how each operation moves through that stream.
pub trait Lexer: Sized {
    type Output;

    /// The lexer is in a state in which it may be used.
    spec fn inv(&self) -> bool;

    /// What is left to read.
    spec fn stream(&self) -> Stream<Self::Output>;

    /// A usable lexer has a well-formed stream. A lexer has no way to say
    /// that what follows cannot be read, so its stream always ends cleanly.
    proof fn lemma_inv(&self)
        requires
            self.inv(),
        ensures
            self.stream().wf(),
            self.stream().clean,
    ;

    /// Returns a [`Span`] of `length` at the cursor of the lexer.
    fn span(&mut self, length: usize) -> (s: Span)
        requires
            old(self).inv(),
        ensures
            final(self).inv(),
            final(self).stream() == old(self).stream(),
            s == old(self).stream().here().with_length(length),
    ;

    /// Consumes the next unit and returns it.
    fn next(&mut self) -> (r: Option<Self::Output>)
        requires
            old(self).inv(),
        ensures
            final(self).inv(),
            old(self).stream().len() > 0 ==> r == Some(old(self).stream().units[0])
                && final(self).stream() == old(self).stream().skip(1),
            old(self).stream().len() == 0 ==> r is None && final(self).stream() == old(self).stream(),
    ;

    /// Looks at the next unit without consuming it.
    fn peek(&mut self) -> (r: Option<&Self::Output>)
        requires
            old(self).inv(),
        ensures
            final(self).inv(),
            final(self).stream() == old(self).stream(),
            old(self).stream().len() > 0 ==> r == Some(&old(self).stream().units[0]),
            old(self).stream().len() == 0 ==> r is None,
    ;

    /// No unit is left.
    #[inline]
    fn is_empty(&mut self) -> (r: bool)
        requires
            old(self).inv(),
        ensures
            final(self).inv(),
            final(self).stream() == old(self).stream(),
            r == (old(self).stream().len() == 0),
    {
        self.peek().is_none()
    }

    /// Consumes one unit, and fails unless it is `expected`. At the end of the
    /// input nothing is consumed.
    fn expect(&mut self, expected: Self::Output) -> (r: Result<(), Error>)
        requires
            old(self).inv(),
        ensures
            final(self).inv(),
            r is Ok <==> old(self).stream().len() > 0 && old(self).stream().units[0] == expected,
            final(self).stream() == if old(self).stream().len() > 0 {
                old(self).stream().skip(1)
            } else {
                old(self).stream()
            },
            r matches Err(e) ==> e@.kind == ErrorKind::Expected && e@.span == Some(
                if old(self).stream().len() > 0 {
                    old(self).stream().unit_span(0)
                } else {
                    old(self).stream().here()
                },
            ),
    ;

    /// Consumes one unit, if one is left.
    fn consume(&mut self)
        requires
            old(self).inv(),
        ensures
            final(self).inv(),
            final(self).stream() == if old(self).stream().len() > 0 {
                old(self).stream().skip(1)
            } else {
                old(self).stream()
            },
    {
        let _ = self.next();
    }

    /// An independent copy of the lexer, at the same position.
    fn fork(&mut self) -> (r: Self)
        requires
            old(self).inv(),
        ensures
            final(self).inv(),
            final(self).stream() == old(self).stream(),
            r.inv(),
            r.stream() == old(self).stream(),
    ;
}

/// A value that can be read from a lexer.
///
/// The two spec functions say what `lex` does on every input: how many units
/// a successful read consumes, and which values it may return.
pub trait Lex<Source = char>: Sized {
    /// The number of units that lexing `input` consumes, or `None` where
    /// lexing fails. A type that states nothing is taken never to lex.
    open spec fn lex_len(input: Stream<Source>) -> Option<nat> {
        None
    }

    /// `value` is what lexing `input` returns.
    open spec fn lex_value(input: Stream<Source>, value: Self) -> bool {
        false
    }

    /// Reads one value. On failure the lexer may have been advanced.
    fn lex<L: Lexer<Output = Source>>(lexer: &mut L) -> (r: Result<Self, Error>)
        requires
            old(lexer).inv(),
        ensures
            final(lexer).inv(),
            match Self::lex_len(old(lexer).stream()) {
                Some(n) => n <= old(lexer).stream().len() && final(lexer).stream() == old(lexer).stream().skip(n as int) && (r matches Ok(v) && Self::lex_value(
                    old(lexer).stream(),
                    v,
                )),
                None => r is Err,
            },
            r matches Err(e) ==> e@.span is Some,
    ;
}

/// A lexeme with a kind.
pub trait Token<Source = char>: Lex<Source> {
    type Kind: TokenKind;

    /// The kind of the token, as contracts speak of it.
    open spec fn kind_spec(&self) -> Self::Kind {
        arbitrary()
    }

    /// The kind of the token: a pure projection.
    fn kind(&self) -> (k: Self::Kind)
        ensures
            k == self.kind_spec(),
    ;
}

/// Lexing `T` returns one value on each input.
pub open spec fn lex_deterministic<S, T: Lex<S>>() -> bool {
    forall|input: Stream<S>, a: T, b: T|
        #![trigger T::lex_value(input, a), T::lex_value(input, b)]
        T::lex_value(input, a) && T::lex_value(input, b) ==> a == b
}

/// The value that lexing a `T` from `input` returns.
pub open spec fn lexed<S, T: Lex<S>>(input: Stream<S>) -> T {
    choose|v: T| T::lex_value(input, v)
}

/// A clone of a `T` is equal to what it was cloned from.
pub open spec fn clones_exactly<T: Clone>() -> bool {
    forall|a: T, b: T| #[trigger] cloned(a, b) ==> a == b
}

/// The tokens `T` can be copied: a clone of a token is equal to the token.
pub open spec fn lawful<T: Token + Clone>() -> bool {
    clones_exactly::<T>()
}

/// Lexes a `T` on a fork of `lexer`, and commits the fork only on success:
/// after a failure the lexer stands where it stood.
pub fn try_lex<S, T: Lex<S>, L: Lexer<Output = S>>(lexer: &mut L) -> (r: Option<T>)
    requires
        old(lexer).inv(),
    ensures
        final(lexer).inv(),
        match T::lex_len(old(lexer).stream()) {
            Some(n) => final(lexer).stream() == old(lexer).stream().skip(n as int) && (
            r matches Some(v) && T::lex_value(old(lexer).stream(), v)),
            None => r is None && final(lexer).stream() == old(lexer).stream(),
        },
{
    let mut fork = lexer.fork();
    match T::lex(&mut fork) {
        Ok(value) => {
            *lexer = fork;
            Some(value)
        },
        Err(_) => None,
    }
}

/// `text` stands at the front of `units`.
pub open spec fn starts_with(units: Seq<char>, text: Seq<char>) -> bool {
    text.len() <= units.len() && units.take(text.len() as int) == text
}

/// The number of characters at the front of `units` that are those of `text`,
/// from the `from`-th on: the length of what the two have in common.
pub open spec fn common_prefix(units: Seq<char>, text: Seq<char>, from: int) -> int
    decreases text.len() - from,
{
    if 0 <= from < text.len() && from < units.len() && units[from] == text[from] {
        common_prefix(units, text, from + 1)
    } else {
        from
    }
}

/// What the two have in common is a prefix of both, and is all of `text`
/// exactly where `text` stands at the front of `units`.
pub proof fn lemma_common_prefix(units: Seq<char>, text: Seq<char>, from: int)
    requires
        0 <= from <= text.len(),
        from <= units.len(),
        units.take(from) == text.take(from),
    ensures
        from <= common_prefix(units, text, from) <= text.len(),
        common_prefix(units, text, from) <= units.len(),
        common_prefix(units, text, from) == text.len() <==> starts_with(units, text),
    decreases text.len() - from,
{
    if from < text.len() && from < units.len() && units[from] == text[from] {
        assert(units.take(from + 1) =~= units.take(from).push(units[from]));
        assert(text.take(from + 1) =~= text.take(from).push(text[from]));
        lemma_common_prefix(units, text, from + 1);
    } else {
        if starts_with(units, text) && from < text.len() {
            assert(units.take(text.len() as int)[from] == text[from]);
        }
        if from == text.len() {
            assert(text.take(from) =~= text);
        }
    }
}

/// Reads the characters of `text`, in order.
///
/// On failure the lexer has read what the input and `text` have in common,
/// and the character after it, if there is one; the error is about that
/// character, or about the end of the input.
pub fn lex_exact<L: Lexer<Output = char>>(lexer: &mut L, text: &str) -> (r: Result<(), Error>)
    requires
        old(lexer).inv(),
    ensures
        final(lexer).inv(),
        r is Ok <==> starts_with(old(lexer).stream().units, text@),
        r is Ok ==> final(lexer).stream() == old(lexer).stream().skip(text@.len() as int),
        r matches Err(e) ==> ({
            let input = old(lexer).stream();
            let common = common_prefix(input.units, text@, 0);
            &&& e@.kind == ErrorKind::Expected
            &&& common < input.len() ==> final(lexer).stream() == input.skip(common + 1) && e@.span
                == Some(input.unit_span(common))
            &&& common >= input.len() ==> final(lexer).stream() == input.skip(common) && e@.span
                == Some(input.mark(common))
        }),
{
    let ghost start = lexer.stream();
    proof {
        lexer.lemma_inv();
        lemma_skip(start, 0, 0);
        assert(start.units.take(0) =~= text@.take(0));
    }
    for c in it: text.chars()
        invariant
            it.seq() == text@,
            lexer.inv(),
            start == old(lexer).stream(),
            start.wf(),
            it.index() <= start.len(),
            start.units.take(it.index() as int) == text@.take(it.index() as int),
            common_prefix(start.units, text@, 0) == common_prefix(
                start.units,
                text@,
                it.index() as int,
            ),
            lexer.stream() == start.skip(it.index() as int),
    {
        let ghost i = it.index() as int;
        proof {
            if i < start.len() {
                lemma_skip(start, i, 1);
            } else {
                lemma_skip(start, i, 0);
            }
            assert(c == text@[i]);
            if i < start.len() {
                assert(start.skip(i).units[0] == start.units[i]);
                assert(start.skip(i).unit_span(0) == start.unit_span(i));
            }
        }
        match lexer.expect(c) {
            Ok(()) => {
                assert(start.units.take(i + 1) =~= start.units.take(i).push(start.units[i]));
                assert(text@.take(i + 1) =~= text@.take(i).push(c));
            },
            Err(e) => {
                proof {
                    lemma_common_prefix(start.units, text@, i);
                }
                return Err(e);
            },
        }
    }
    proof {
        lemma_common_prefix(start.units, text@, text@.len() as int);
    }
    Ok(())
}

/// The characters with the Unicode property `White_Space`.
pub open spec fn is_white_space(c: char) -> bool {
    let n = c as u32;
    (0x09 <= n <= 0x0d) || n == 0x20 || n == 0x85 || n == 0xa0 || n == 0x1680 || (0x2000 <= n
        <= 0x200a) || n == 0x2028 || n == 0x2029 || n == 0x202f || n == 0x205f || n == 0x3000
}

/// `char::is_whitespace`: whether `c` has the Unicode property `White_Space`.
#[verifier::external_body]
pub(crate) fn is_whitespace(c: char) -> (b: bool)
    ensures
        b == is_white_space(c),
{
    c.is_whitespace()
}

/// `std::rc::Rc::clone`: the new handle refers to the value the old one
/// refers to.
#[verifier::external_body]
fn share(chars: &Rc<Vec<char>>) -> (r: Rc<Vec<char>>)
    ensures
        r == *chars,
{
    Rc::clone(chars)
}

/// The characters of `source`, in order.
pub fn chars_of(source: &str) -> (chars: Vec<char>)
    ensures
        chars@ == source@,
{
    let mut chars: Vec<char> = Vec::new();
    for c in it: source.chars()
        invariant
            it.seq() == source@,
            chars@ == it.seq().take(it.index() as int),
    {
        chars.push(c);
        assert(it.seq().take(it.index() + 1) =~= it.seq().take(it.index() as int).push(c));
    }
    assert(chars@ =~= source@);
    chars
}

/// The position one character after `at`, when that character is `c`.
pub open spec fn advance(at: Span, c: char) -> Span {
    if c == '\n' {
        Span { line: (at.line + 1) as usize, column: 0, offset: (at.offset + 1) as usize, ..at }
    } else {
        Span { column: (at.column + 1) as usize, offset: (at.offset + 1) as usize, ..at }
    }
}

/// The position after the first `k` of `units`, starting at `at`.
pub open spec fn position_after(at: Span, units: Seq<char>, k: int) -> Span
    decreases k,
{
    if k <= 0 {
        at
    } else {
        advance(position_after(at, units, k - 1), units[k - 1])
    }
}

/// The stream of the characters `units` that start at `at`.
pub open spec fn char_stream(at: Span, units: Seq<char>) -> Stream<char> {
    Stream {
        units,
        marks: Seq::new(units.len() + 1, |k: int| position_after(at, units, k)),
        clean: true,
    }
}

/// Each character moves the position one offset on, and never past the
/// offset in line or column.
proof fn lemma_position_after(at: Span, units: Seq<char>, k: int)
    requires
        0 <= k <= units.len(),
        at.offset + units.len() <= usize::MAX,
        at.line <= at.offset,
        at.column <= at.offset,
    ensures
        position_after(at, units, k).offset == at.offset + k,
        position_after(at, units, k).line <= at.offset + k,
        position_after(at, units, k).column <= at.offset + k,
        position_after(at, units, k).length == at.length,
        position_after(at, units, k).same_source(at),
        k > 0 ==> position_after(at, units, k) == position_after(
            advance(at, units[0]),
            units.skip(1),
            k - 1,
        ),
    decreases k,
{
    if k > 0 {
        lemma_position_after(at, units, k - 1);
        if k > 1 {
            assert(units.skip(1)[k - 2] == units[k - 1]);
        }
    }
}

/// Characters laid out from a position of no length make a well-formed
/// stream, and reading one of them leaves the stream of the rest.
pub proof fn lemma_char_stream(at: Span, units: Seq<char>)
    requires
        at.length == 0,
        at.offset + units.len() <= usize::MAX,
        at.line <= at.offset,
        at.column <= at.offset,
    ensures
        char_stream(at, units).wf(),
        char_stream(at, units).here() == at,
        units.len() > 0 ==> char_stream(at, units).skip(1) == char_stream(
            advance(at, units[0]),
            units.skip(1),
        ),
        units.len() > 0 ==> char_stream(at, units).unit_span(0) == at.with_length(1),
{
    let s = char_stream(at, units);
    assert forall|i: int| 0 <= i < s.marks.len() implies (#[trigger] s.marks[i]).length == 0
        && s.marks[i].same_source(s.marks[0]) by {
        lemma_position_after(at, units, i);
    }
    assert forall|i: int, j: int| 0 <= i < j < s.marks.len() implies (#[trigger] s.marks[i]).offset
        < (#[trigger] s.marks[j]).offset by {
        lemma_position_after(at, units, i);
        lemma_position_after(at, units, j);
    }
    if units.len() > 0 {
        let t = char_stream(advance(at, units[0]), units.skip(1));
        assert forall|k: int| 0 <= k < t.marks.len() implies s.skip(1).marks[k] == t.marks[k] by {
            lemma_position_after(at, units, k + 1);
        }
        assert(s.skip(1).marks =~= t.marks);
        lemma_position_after(at, units, 1);
    }
}

/// A lexer over the characters of one document, which keeps track of line,
/// column and offset.
pub struct CharsLexer {
    line: usize,
    column: usize,
    offset: usize,
    path: SourcePath,
    source: &'static str,
    chars: Rc<Vec<char>>,
}

impl CharsLexer {
    /// The position of the cursor, as a span of no length.
    pub closed spec fn cursor(&self) -> Span {
        Span {
            path: self.path,
            source: self.source,
            line: self.line,
            column: self.column,
            offset: self.offset,
            length: 0,
        }
    }

    /// The characters that are still to be read.
    pub closed spec fn rest(&self) -> Seq<char> {
        self.chars@.skip(self.offset as int)
    }

    /// A lexer at the start of `source`.
    pub fn new(source: &'static str, path: SourcePath) -> (lexer: CharsLexer)
        ensures
            lexer.inv(),
            lexer.rest() == source@,
            lexer.cursor() == (Span { path, source, line: 0, column: 0, offset: 0, length: 0 }),
            lexer.stream() == char_stream(lexer.cursor(), source@),
    {
        let chars = chars_of(source);
        assert(chars@.skip(0) =~= chars@);
        CharsLexer { line: 0, column: 0, offset: 0, path, source, chars: Rc::new(chars) }
    }
}

impl Lexer for CharsLexer {
    type Output = char;

    closed spec fn inv(&self) -> bool {
        &&& self.offset <= self.chars@.len()
        &&& self.line <= self.offset
        &&& self.column <= self.offset
    }

    open spec fn stream(&self) -> Stream<char> {
        char_stream(self.cursor(), self.rest())
    }

    proof fn lemma_inv(&self) {
        assert(self.chars.len() == self.chars@.len());
        lemma_char_stream(self.cursor(), self.rest());
    }

    #[inline]
    fn span(&mut self, length: usize) -> (s: Span) {
        Span {
            path: self.path,
            source: self.source,
            line: self.line,
            column: self.column,
            offset: self.offset,
            length,
        }
    }

    #[inline]
    fn next(&mut self) -> (r: Option<char>) {
        proof {
            assert(self.chars.len() == self.chars@.len());
        lemma_char_stream(self.cursor(), self.rest());
        }
        if self.offset < self.chars.len() {
            let c = self.chars[self.offset];
            assert(self.rest().skip(1) =~= self.chars@.skip(self.offset + 1));
            self.offset += 1;
            if c == '\n' {
                self.column = 0;
                self.line += 1;
            } else {
                self.column += 1;
            }
            Some(c)
        } else {
            None
        }
    }

    #[inline]
    fn peek(&mut self) -> (r: Option<&char>) {
        if self.offset < self.chars.len() {
            Some(&self.chars[self.offset])
        } else {
            None
        }
    }

    #[inline]
    fn expect(&mut self, expected: char) -> (r: Result<(), Error>)
        ensures
            r matches Err(e) ==> e@.message == expected_text(seq![expected]) && e@.hints.len() == 1
                && e@.hints[0].spans == seq![e@.span->0] && e@.hints[0].msg == found_text(
                if old(self).stream().len() > 0 {
                    seq![old(self).stream().units[0]]
                } else {
                    "eof"@
                },
            ),
    {
        let at = self.span(0);
        proof {
            assert(self.chars.len() == self.chars@.len());
        lemma_char_stream(self.cursor(), self.rest());
        }
        if let Some(next_char) = self.next() {
            if next_char == expected {
                Ok(())
            } else {
                Err(Error::expected(
                    at.with_len(1),
                    char_text(expected).as_str(),
                    char_text(next_char).as_str(),
                ))
            }
        } else {
            Err(Error::expected(at, char_text(expected).as_str(), "eof"))
        }
    }

    #[inline]
    fn fork(&mut self) -> (r: CharsLexer) {
        CharsLexer {
            line: self.line,
            column: self.column,
            offset: self.offset,
            path: self.path,
            source: self.source,
            chars: share(&self.chars),
        }
    }
}

/// `core::char::to_string`: the string that holds `c` alone.
#[verifier::external_body]
pub(crate) fn char_text(c: char) -> (s: String)
    ensures
        s@ == seq![c],
{
    c.to_string()
}

impl TokenKind for char {
    open spec fn name_spec(&self) -> Seq<char> {
        "character"@
    }

    fn name(&self) -> (name: &str) {
        "character"
    }

    fn same(&self, other: &char) -> (same: bool) {
        *self == *other
    }
}

impl Lex<char> for char {
    open spec fn lex_len(input: Stream<char>) -> Option<nat> {
        if input.len() > 0 {
            Some(1)
        } else {
            None
        }
    }

    open spec fn lex_value(input: Stream<char>, value: char) -> bool {
        value == input.units[0]
    }

    /// A character is its own token: the next unit, whatever it is.
    fn lex<L: Lexer<Output = char>>(lexer: &mut L) -> (r: Result<char, Error>) {
        let at = lexer.span(0);
        match lexer.next() {
            Some(c) => Ok(c),
            None => Err(Error::unexpected_eof(at)),
        }
    }
}

impl Token<char> for char {
    type Kind = char;

    open spec fn kind_spec(&self) -> char {
        *self
    }

    /// A character is its own kind.
    fn kind(&self) -> (k: char) {
        *self
    }
}

/// Characters lex to one value and clone exactly.
pub proof fn lemma_char_lawful()
    ensures
        lex_deterministic::<char, char>(),
        clones_exactly::<char>(),
        lawful::<char>(),
{
}

} // verus!
