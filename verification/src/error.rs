//! Structured errors: a message, the place it is about, and the hints that
//! the layers it passed through have added.

use crate::span::Span;
use vstd::prelude::*;
use vstd::string::StringExecFns;

verus! {

/// What went wrong, in the terms a grammar uses.
#[derive(Clone, Copy, Debug, PartialEq, Eq, Structural)]
pub enum ErrorKind {
    /// A free-form failure.
    Message,
    /// One specific thing was expected and something else was found.
    Expected,
    /// One of a set of things was expected and something else was found.
    ExpectedOne,
    /// The input ended where a value was required.
    UnexpectedEof,
}

/// What an [`ErrorHint`] says.
pub struct HintView {
    pub msg: Seq<char>,
    pub spans: Seq<Span>,
}

/// What an [`Error`] says.
pub struct ErrorView {
    pub kind: ErrorKind,
    pub message: Seq<char>,
    pub span: Option<Span>,
    pub hints: Seq<HintView>,
}

/// The text of an `Expected` error: `expected '<what>'`.
pub open spec fn expected_text(what: Seq<char>) -> Seq<char> {
    "expected '"@ + what + "'"@
}

/// The text of the hint that says what was found: `found '<what>'`.
pub open spec fn found_text(what: Seq<char>) -> Seq<char> {
    "found '"@ + what + "'"@
}

/// The names of `names[..upto]`, each followed by `, ` but the last.
pub open spec fn joined(names: Seq<Seq<char>>, upto: int) -> Seq<char>
    decreases upto,
{
    if upto <= 0 {
        Seq::empty()
    } else if upto == 1 {
        names[0]
    } else {
        joined(names, upto - 1) + ", "@ + names[upto - 1]
    }
}

/// The text of an `ExpectedOne` error: `expected one of '<a>, <b>, ..'`.
pub open spec fn expected_one_text(names: Seq<Seq<char>>) -> Seq<char> {
    "expected one of '"@ + joined(names, names.len() as int) + "'"@
}

/// The text of every `UnexpectedEof` error.
pub open spec fn eof_text() -> Seq<char> {
    "unexpected end of input"@
}

/// Context attached to an [`Error`].
#[derive(Debug)]
pub struct ErrorHint {
    msg: String,
    source: Option<Box<Error>>,
    spans: Vec<Span>,
}

/// A failure to lex or parse.
#[derive(Debug)]
pub struct Error {
    kind: ErrorKind,
    message: String,
    source: Option<Box<Error>>,
    span: Option<Span>,
    hints: Vec<ErrorHint>,
}

impl View for ErrorHint {
    type V = HintView;

    closed spec fn view(&self) -> HintView {
        HintView { msg: self.msg@, spans: self.spans@ }
    }
}

impl ErrorHint {
    /// The error that caused this hint, if one was recorded.
    pub closed spec fn cause(&self) -> Option<Error> {
        match self.source {
            Some(b) => Some(*b),
            None => None,
        }
    }

    pub fn new(msg: &str) -> (h: ErrorHint)
        ensures
            h@ == (HintView { msg: msg@, spans: Seq::empty() }),
            h.cause() is None,
    {
        ErrorHint { msg: String::from_str(msg), source: None, spans: Vec::new() }
    }

    pub fn spanned(span: Span, msg: &str) -> (h: ErrorHint)
        ensures
            h@ == (HintView { msg: msg@, spans: seq![span] }),
            h.cause() is None,
    {
        let mut spans: Vec<Span> = Vec::new();
        spans.push(span);
        ErrorHint { msg: String::from_str(msg), source: None, spans }
    }

    pub fn msg(&self) -> (m: &str)
        ensures
            m@ == self@.msg,
    {
        self.msg.as_str()
    }

    pub fn source(&self) -> (s: Option<&Error>)
        ensures
            s is Some == self.cause() is Some,
            s matches Some(e) ==> *e == self.cause()->0,
    {
        match &self.source {
            Some(b) => Some(&**b),
            None => None,
        }
    }

    /// The first span of the hint.
    pub fn span(&self) -> (s: Option<Span>)
        ensures
            s == if self@.spans.len() > 0 { Some(self@.spans[0]) } else { None },
    {
        if self.spans.len() > 0 {
            Some(self.spans[0])
        } else {
            None
        }
    }

    pub fn spans(&self) -> (s: &[Span])
        ensures
            s@ == self@.spans,
    {
        self.spans.as_slice()
    }
}

/// The views of `hints`, in order.
pub open spec fn hint_views(hints: Seq<ErrorHint>) -> Seq<HintView> {
    Seq::new(hints.len(), |i: int| hints[i]@)
}

impl View for Error {
    type V = ErrorView;

    closed spec fn view(&self) -> ErrorView {
        ErrorView {
            kind: self.kind,
            message: self.message@,
            span: self.span,
            hints: hint_views(self.hints@),
        }
    }
}

impl Error {
    /// The error that caused this one, if one was recorded.
    pub closed spec fn cause(&self) -> Option<Error> {
        match self.source {
            Some(b) => Some(*b),
            None => None,
        }
    }

    /// The hints themselves, of which the view shows the text and spans.
    pub closed spec fn hint_list(&self) -> Seq<ErrorHint> {
        self.hints@
    }

    /// A free-form error without a place.
    pub fn new(msg: &str) -> (e: Error)
        ensures
            e@ == (ErrorView {
                kind: ErrorKind::Message,
                message: msg@,
                span: None,
                hints: Seq::empty(),
            }),
            e.cause() is None,
    {
        let e = Error {
            kind: ErrorKind::Message,
            message: String::from_str(msg),
            source: None,
            span: None,
            hints: Vec::new(),
        };
        assert(hint_views(e.hints@) =~= Seq::<HintView>::empty());
        e
    }

    /// A free-form error about `span`.
    pub fn spanned(span: Span, msg: &str) -> (e: Error)
        ensures
            e@ == (ErrorView {
                kind: ErrorKind::Message,
                message: msg@,
                span: Some(span),
                hints: Seq::empty(),
            }),
            e.cause() is None,
    {
        let e = Error {
            kind: ErrorKind::Message,
            message: String::from_str(msg),
            source: None,
            span: Some(span),
            hints: Vec::new(),
        };
        assert(hint_views(e.hints@) =~= Seq::<HintView>::empty());
        e
    }

    pub fn kind(&self) -> (k: ErrorKind)
        ensures
            k == self@.kind,
    {
        self.kind
    }

    pub fn msg(&self) -> (m: &str)
        ensures
            m@ == self@.message,
    {
        self.message.as_str()
    }

    pub fn source(&self) -> (s: Option<&Error>)
        ensures
            s is Some == self.cause() is Some,
            s matches Some(e) ==> *e == self.cause()->0,
    {
        match &self.source {
            Some(b) => Some(&**b),
            None => None,
        }
    }

    pub fn span(&self) -> (s: Option<Span>)
        ensures
            s == self@.span,
    {
        self.span
    }

    pub fn hints(&self) -> (h: &[ErrorHint])
        ensures
            h@ == self.hint_list(),
            hint_views(h@) == self@.hints,
    {
        self.hints.as_slice()
    }

    /// `expected` was required at `span`, and `found` stood there.
    pub fn expected(span: Span, expected: &str, found: &str) -> (e: Error)
        ensures
            e@ == (ErrorView {
                kind: ErrorKind::Expected,
                message: expected_text(expected@),
                span: Some(span),
                hints: seq![HintView { msg: found_text(found@), spans: seq![span] }],
            }),
            e.cause() is None,
    {
        let mut message = String::from_str("expected '");
        message.append(expected);
        message.append("'");
        let mut e = Error {
            kind: ErrorKind::Expected,
            message,
            source: None,
            span: Some(span),
            hints: Vec::new(),
        };
        assert(hint_views(e.hints@) =~= Seq::<HintView>::empty());
        e.add_hint(Self::found_hint(span, found));
        assert(e@.hints =~= seq![HintView { msg: found_text(found@), spans: seq![span] }]);
        e
    }

    /// One of `expected` was required at `span`, and `found` stood there.
    pub fn expected_one(span: Span, expected: &[&str], found: &str) -> (e: Error)
        ensures
            e@ == (ErrorView {
                kind: ErrorKind::ExpectedOne,
                message: expected_one_text(Seq::new(expected@.len(), |i: int| expected@[i]@)),
                span: Some(span),
                hints: seq![HintView { msg: found_text(found@), spans: seq![span] }],
            }),
            e.cause() is None,
    {
        let ghost names = Seq::new(expected@.len(), |i: int| expected@[i]@);
        let mut message = String::from_str("expected one of '");
        let mut i: usize = 0;
        while i < expected.len()
            invariant
                i <= expected@.len(),
                names == Seq::new(expected@.len(), |i: int| expected@[i]@),
                message@ == "expected one of '"@ + joined(names, i as int),
            decreases expected@.len() - i,
        {
            if i > 0 {
                message.append(", ");
            }
            message.append(expected[i]);
            i += 1;
        }
        message.append("'");
        let mut e = Error {
            kind: ErrorKind::ExpectedOne,
            message,
            source: None,
            span: Some(span),
            hints: Vec::new(),
        };
        assert(hint_views(e.hints@) =~= Seq::<HintView>::empty());
        e.add_hint(Self::found_hint(span, found));
        assert(e@.hints =~= seq![HintView { msg: found_text(found@), spans: seq![span] }]);
        e
    }

    /// The input ended at `span`, where a value was required.
    pub fn unexpected_eof(span: Span) -> (e: Error)
        ensures
            e@ == (ErrorView {
                kind: ErrorKind::UnexpectedEof,
                message: eof_text(),
                span: Some(span),
                hints: Seq::empty(),
            }),
            e.cause() is None,
    {
        let e = Error {
            kind: ErrorKind::UnexpectedEof,
            message: String::from_str("unexpected end of input"),
            source: None,
            span: Some(span),
            hints: Vec::new(),
        };
        assert(hint_views(e.hints@) =~= Seq::<HintView>::empty());
        e
    }

    fn found_hint(span: Span, found: &str) -> (h: ErrorHint)
        ensures
            h@ == (HintView { msg: found_text(found@), spans: seq![span] }),
    {
        let mut msg = String::from_str("found '");
        msg.append(found);
        msg.append("'");
        let mut spans: Vec<Span> = Vec::new();
        spans.push(span);
        ErrorHint { msg, source: None, spans }
    }

    /// The same error with `hint` after the hints it had.
    pub fn with_hint(self, hint: ErrorHint) -> (e: Error)
        ensures
            e@ == (ErrorView { hints: self@.hints.push(hint@), ..self@ }),
            e.cause() == self.cause(),
    {
        let mut e = self;
        e.add_hint(hint);
        e
    }

    /// Puts `hint` after the hints the error has.
    pub fn add_hint(&mut self, hint: ErrorHint)
        ensures
            final(self)@ == (ErrorView { hints: old(self)@.hints.push(hint@), ..old(self)@ }),
            final(self).cause() == old(self).cause(),
            final(self).hint_list() == old(self).hint_list().push(hint),
    {
        self.hints.push(hint);
        assert(hint_views(self.hints@) =~= hint_views(old(self).hints@).push(hint@));
    }

    /// The same error, caused by `cause`.
    pub fn with_source(self, cause: Error) -> (e: Error)
        ensures
            e@ == self@,
            e.cause() == Some(cause),
    {
        let mut e = self;
        e.source = Some(Box::new(cause));
        e
    }

    /// The message, then one line for each hint, each ended by a newline.
    pub fn render(&self) -> (text: String)
        ensures
            text@ == rendered(self@),
    {
        let mut text = String::from_str(self.message.as_str());
        text.append("\n");
        let mut i: usize = 0;
        while i < self.hints.len()
            invariant
                i <= self.hints@.len(),
                text@ == rendered_upto(self@, i as int),
            decreases self.hints@.len() - i,
        {
            text.append(self.hints[i].msg.as_str());
            text.append("\n");
            i += 1;
        }
        text
    }
}

/// The message and the first `upto` hints, one per line.
pub open spec fn rendered_upto(e: ErrorView, upto: int) -> Seq<char>
    decreases upto,
{
    if upto <= 0 {
        e.message + "\n"@
    } else {
        rendered_upto(e, upto - 1) + e.hints[upto - 1].msg + "\n"@
    }
}

/// The message and every hint, one per line.
pub open spec fn rendered(e: ErrorView) -> Seq<char> {
    rendered_upto(e, e.hints.len() as int)
}

} // verus!
