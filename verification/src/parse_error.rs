//! The four kinds of failure a grammar reports, as constructors that an
//! error type offers.

use crate::error::joined;
use crate::token::{Token, TokenKind};
use vstd::prelude::*;
use vstd::std_specs::convert::FromSpecImpl;
use vstd::string::StringExecFns;

verus! {

/// What was expected: a token, or a description in words.
#[derive(Clone, Debug)]
pub enum TokenOrMessage<'a, Token> {
    Token(Token),
    Message(&'a str),
}

impl<'a, Token> TokenOrMessage<'a, Token> {
    /// A description in words.
    #[inline]
    pub fn from_str(msg: &'a str) -> (r: Self)
        ensures
            r == TokenOrMessage::<Token>::Message(msg),
    {
        TokenOrMessage::Message(msg)
    }
}

impl<'a, Token> From<Token> for TokenOrMessage<'a, Token> {
    #[inline]
    fn from(token: Token) -> (r: Self) {
        TokenOrMessage::Token(token)
    }
}

impl<'a, Token> FromSpecImpl<Token> for TokenOrMessage<'a, Token> {
    open spec fn obeys_from_spec() -> bool {
        true
    }

    open spec fn from_spec(token: Token) -> Self {
        TokenOrMessage::Token(token)
    }
}

/// The name of the kind of `found`, or `eof` where nothing was found.
pub open spec fn found_name<Tok: Token>(found: Option<Tok>) -> Seq<char> {
    match found {
        Some(token) => token.kind_spec().name_spec(),
        None => "eof"@,
    }
}

/// The name of the kind of `found`, or `eof` where nothing was found.
pub fn name_of_found<Tok: Token>(found: &Option<Tok>) -> (name: String)
    ensures
        name@ == found_name(*found),
{
    match found {
        Some(token) => {
            let kind = token.kind();
            String::from_str(kind.name())
        },
        None => String::from_str("eof"),
    }
}

impl<'a, Tok: Token> TokenOrMessage<'a, Tok> {
    /// How the expectation reads in a message: the name of the token's kind,
    /// or the description.
    pub open spec fn text_spec(&self) -> Seq<char> {
        match self {
            TokenOrMessage::Token(token) => token.kind_spec().name_spec(),
            TokenOrMessage::Message(msg) => msg@,
        }
    }

    /// How the expectation reads in a message.
    pub fn text(&self) -> (text: String)
        ensures
            text@ == self.text_spec(),
    {
        match self {
            TokenOrMessage::Token(token) => {
                let kind = token.kind();
                String::from_str(kind.name())
            },
            TokenOrMessage::Message(msg) => String::from_str(msg),
        }
    }
}

/// The texts of `expected`, in order.
pub open spec fn texts_of<Tok: Token>(expected: Seq<TokenOrMessage<Tok>>) -> Seq<Seq<char>> {
    Seq::new(expected.len(), |i: int| expected[i].text_spec())
}

/// The text of a failed expectation: `found '<found>', expected '<expected>'`.
pub open spec fn mismatch_text(found: Seq<char>, expected: Seq<char>) -> Seq<char> {
    "found '"@ + found + "', expected '"@ + expected + "'"@
}

/// An error type that a grammar over `Token` can report its failures in.
pub trait ParseError<Token>: Sized {
    /// The error says that the input ended. Any does, unless the type says which.
    open spec fn says_eof(&self) -> bool {
        true
    }

    /// The error says `message`. Any does, unless the type says which.
    open spec fn says_message(&self, message: Seq<char>) -> bool {
        true
    }

    /// `expected` was required where `found` stood, or nothing.
    fn expected(found: Option<Token>, expected: TokenOrMessage<Token>) -> Self;

    /// One of `expected` was required where `found` stood, or nothing.
    fn expected_one(found: Option<Token>, expected: &[TokenOrMessage<Token>]) -> Self;

    /// The input ended where a value was required.
    fn unexpected_eof() -> (e: Self)
        ensures
            e.says_eof(),
    ;

    /// A free-form failure.
    fn message(message: &str) -> (e: Self)
        ensures
            e.says_message(message@),
    ;
}

/// The plainest error type: the message alone.
impl<Tok: Token> ParseError<Tok> for String {
    fn expected(found: Option<Tok>, expected: TokenOrMessage<Tok>) -> (e: String)
        ensures
            e@ == mismatch_text(found_name(found), expected.text_spec()),
    {
        let mut e = String::from_str("found '");
        e.append(name_of_found(&found).as_str());
        e.append("', expected '");
        e.append(expected.text().as_str());
        e.append("'");
        e
    }

    fn expected_one(found: Option<Tok>, expected: &[TokenOrMessage<Tok>]) -> (e: String)
        ensures
            e@ == mismatch_text(
                found_name(found),
                joined(texts_of(expected@), expected@.len() as int),
            ),
    {
        let ghost texts = texts_of(expected@);
        let mut e = String::from_str("found '");
        e.append(name_of_found(&found).as_str());
        e.append("', expected '");
        let ghost head = e@;
        let mut i: usize = 0;
        while i < expected.len()
            invariant
                i <= expected@.len(),
                texts == texts_of(expected@),
                e@ == head + joined(texts, i as int),
            decreases expected@.len() - i,
        {
            if i > 0 {
                e.append(", ");
            }
            e.append(expected[i].text().as_str());
            proof {
                assert(texts[i as int] == expected@[i as int].text_spec());
                if i == 0 {
                    assert(head + joined(texts, 0) + texts[0] =~= head + joined(texts, 1));
                } else {
                    assert(head + joined(texts, i as int) + ", "@ + texts[i as int] =~= head
                        + joined(texts, i + 1));
                }
            }
            i += 1;
        }
        e.append("'");
        e
    }

    fn unexpected_eof() -> (e: String) {
        eof_message()
    }

    fn message(message: &str) -> (e: String) {
        plain_message(message)
    }

    /// A `String` says that the input ended by the text `unexpected eof`.
    open spec fn says_eof(&self) -> bool {
        self@ == "unexpected eof"@
    }

    /// A `String` says a message by being it.
    open spec fn says_message(&self, message: Seq<char>) -> bool {
        self@ == message
    }
}

/// The message of a `String` error for the end of the input.
pub fn eof_message() -> (e: String)
    ensures
        e@ == "unexpected eof"@,
{
    String::from_str("unexpected eof")
}

/// The message of a free-form `String` error: `message` itself.
pub fn plain_message(message: &str) -> (e: String)
    ensures
        e@ == message@,
{
    String::from_str(message)
}

} // verus!
