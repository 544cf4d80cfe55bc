//! Grammar productions, the parsers they read from, and the start sets by
//! which a parser decides on one token whether a production is next.

use crate::error::{Error, ErrorKind};
use crate::span::Span;
use crate::stream::{ended, lemma_skip, prepend, regroup, Stream};
use crate::token::{
    clones_exactly, is_white_space, is_whitespace, lawful, lex_deterministic, lexed, Lex,
    Lexer, Token, TokenKind,
};
use vstd::prelude::*;

verus! {

/// What a [`StartTokens`] tree stands for: the kinds it names, each once and
/// in the order in which the tree names them first, and whether it holds the
/// leaf that matches anything.
pub struct StartSet<T> {
    pub kinds: Seq<T>,
    pub all: bool,
}

impl<T> StartSet<T> {
    /// The set that names nothing and matches anything.
    pub open spec fn anything() -> StartSet<T> {
        StartSet { kinds: Seq::empty(), all: true }
    }

    /// A production with this start set may begin with a token of `kind`.
    pub open spec fn contains(self, kind: T) -> bool {
        self.all || self.kinds.contains(kind)
    }

    /// What one token of lookahead decides: `Some(true)` where `kind` is
    /// named, `Some(false)` where it is not and nothing else can match, and
    /// `None` where only an attempt can tell.
    pub open spec fn decides(self, kind: T) -> Option<bool> {
        if self.kinds.contains(kind) {
            Some(true)
        } else if self.all {
            None
        } else {
            Some(false)
        }
    }
}

/// The kinds that may begin a production, as a tree.
#[derive(Debug)]
pub enum StartTokens<T: TokenKind> {
    /// Matches anything.
    All,
    /// Any of the alternatives.
    Any(Vec<StartTokens<T>>),
    /// What another production starts with.
    One(Box<StartTokens<T>>),
    /// One kind.
    Token(T),
}

impl<T: TokenKind> StartTokens<T> {
    /// The tree holds the leaf that matches anything.
    pub open spec fn has_all(&self) -> bool
        decreases self,
    {
        match self {
            StartTokens::All => true,
            StartTokens::Any(kinds) => exists|i: int|
                0 <= i < kinds@.len() && (#[trigger] kinds@[i]).has_all(),
            StartTokens::One(tok) => tok.has_all(),
            StartTokens::Token(_) => false,
        }
    }

    /// The tree holds a leaf for `kind`.
    pub open spec fn has_token(&self, kind: T) -> bool
        decreases self,
    {
        match self {
            StartTokens::All => false,
            StartTokens::Any(kinds) => exists|i: int|
                0 <= i < kinds@.len() && (#[trigger] kinds@[i]).has_token(kind),
            StartTokens::One(tok) => tok.has_token(kind),
            StartTokens::Token(tok) => *tok == kind,
        }
    }

    /// `acc`, followed by the kinds of the tree that `acc` and the leaves
    /// before them do not hold.
    pub open spec fn appended(&self, acc: Seq<T>) -> Seq<T>
        decreases self, 0nat,
    {
        match self {
            StartTokens::All => acc,
            StartTokens::Any(kinds) => Self::appended_all(kinds@, kinds@.len(), acc),
            StartTokens::One(tok) => tok.appended(acc),
            StartTokens::Token(tok) => if acc.contains(*tok) {
                acc
            } else {
                acc.push(*tok)
            },
        }
    }

    /// `acc` after the first `n` of `trees` have been appended, in order.
    pub open spec fn appended_all(trees: Seq<StartTokens<T>>, n: nat, acc: Seq<T>) -> Seq<T>
        decreases trees, n,
    {
        if n == 0 || n > trees.len() {
            acc
        } else {
            trees[n - 1].appended(Self::appended_all(trees, (n - 1) as nat, acc))
        }
    }

    /// Appending keeps what was there, adds exactly the kinds of the tree, and
    /// adds none twice.
    pub proof fn lemma_appended(&self, acc: Seq<T>)
        ensures
            acc.len() <= self.appended(acc).len(),
            self.appended(acc).take(acc.len() as int) == acc,
            forall|k: T| #[trigger]
                self.appended(acc).contains(k) <==> acc.contains(k) || self.has_token(k),
            acc.no_duplicates() ==> self.appended(acc).no_duplicates(),
        decreases self, 0nat,
    {
        match self {
            StartTokens::All => {
                assert(acc.take(acc.len() as int) =~= acc);
            },
            StartTokens::Any(kinds) => {
                Self::lemma_appended_all(kinds@, kinds@.len(), acc);
            },
            StartTokens::One(tok) => {
                tok.lemma_appended(acc);
            },
            StartTokens::Token(tok) => {
                assert(acc.take(acc.len() as int) =~= acc);
                if !acc.contains(*tok) {
                    let out = acc.push(*tok);
                    assert(out.take(acc.len() as int) =~= acc);
                    assert(out[acc.len() as int] == *tok);
                    assert forall|k: T| #[trigger] out.contains(k) <==> acc.contains(k) || *tok
                        == k by {
                        if acc.contains(k) {
                            let i = choose|i: int| 0 <= i < acc.len() && acc[i] == k;
                            assert(out[i] == k);
                        }
                    }
                    if acc.no_duplicates() {
                        assert forall|i: int, j: int|
                            0 <= i < out.len() && 0 <= j < out.len() && i != j implies out[i]
                            != out[j] by {
                            if i == acc.len() {
                                assert(acc[j] == out[j]);
                            } else if j == acc.len() {
                                assert(acc[i] == out[i]);
                            }
                        }
                    }
                }
            },
        }
    }

    /// The same of a list of trees.
    pub proof fn lemma_appended_all(trees: Seq<StartTokens<T>>, n: nat, acc: Seq<T>)
        requires
            n <= trees.len(),
        ensures
            acc.len() <= Self::appended_all(trees, n, acc).len(),
            Self::appended_all(trees, n, acc).take(acc.len() as int) == acc,
            forall|k: T| #[trigger]
                Self::appended_all(trees, n, acc).contains(k) <==> acc.contains(k) || exists|
                    i: int,
                |
                    0 <= i < n && (#[trigger] trees[i]).has_token(k),
            acc.no_duplicates() ==> Self::appended_all(trees, n, acc).no_duplicates(),
        decreases trees, n,
    {
        if n == 0 {
            assert(acc.take(acc.len() as int) =~= acc);
        } else {
            let before = Self::appended_all(trees, (n - 1) as nat, acc);
            let out = Self::appended_all(trees, n, acc);
            Self::lemma_appended_all(trees, (n - 1) as nat, acc);
            trees[n - 1].lemma_appended(before);
            assert(out.take(acc.len() as int) =~= out.take(before.len() as int).take(
                acc.len() as int,
            ));
            assert forall|k: T| #[trigger]
                out.contains(k) <==> acc.contains(k) || exists|i: int|
                    0 <= i < n && (#[trigger] trees[i]).has_token(k) by {
                if out.contains(k) {
                    if !before.contains(k) {
                        assert(trees[n - 1].has_token(k));
                    }
                }
                if before.contains(k) {
                    assert(out.contains(k));
                }
            }
        }
    }
}

impl<T: TokenKind> View for StartTokens<T> {
    type V = StartSet<T>;

    open spec fn view(&self) -> StartSet<T> {
        StartSet { kinds: self.appended(Seq::empty()), all: self.has_all() }
    }
}

impl<T: TokenKind> StartTokens<T> {
    /// The set names each kind once, and names the kinds of the leaves.
    pub proof fn lemma_view(&self)
        ensures
            self@.kinds.no_duplicates(),
            forall|k: T| #[trigger] self@.kinds.contains(k) <==> self.has_token(k),
            forall|k: T| #[trigger] self@.contains(k) <==> self.has_all() || self.has_token(k),
    {
        self.lemma_appended(Seq::empty());
    }

    /// A production that starts as the tree says may begin with `kind`.
    pub fn contains(&self, kind: &T) -> (r: bool)
        ensures
            r == self@.contains(*kind),
    {
        proof {
            self.lemma_view();
        }
        self.catches_all() || self.names(kind)
    }

    /// The tree holds the leaf that matches anything.
    #[verifier::loop_isolation(false)]
    pub fn catches_all(&self) -> (r: bool)
        ensures
            r == self.has_all(),
        decreases self,
    {
        match self {
            StartTokens::All => true,
            StartTokens::Any(kinds) => {
                let mut i: usize = 0;
                while i < kinds.len()
                    invariant
                        i <= kinds@.len(),
                        forall|j: int| 0 <= j < i ==> !(#[trigger] kinds@[j]).has_all(),
                    decreases kinds@.len() - i,
                {
                    if kinds[i].catches_all() {
                        return true;
                    }
                    i += 1;
                }
                false
            },
            StartTokens::One(tok) => tok.catches_all(),
            StartTokens::Token(_) => false,
        }
    }

    /// The tree holds a leaf for `kind`.
    #[verifier::loop_isolation(false)]
    pub fn names(&self, kind: &T) -> (r: bool)
        ensures
            r == self.has_token(*kind),
        decreases self,
    {
        match self {
            StartTokens::All => false,
            StartTokens::Any(kinds) => {
                let mut i: usize = 0;
                while i < kinds.len()
                    invariant
                        i <= kinds@.len(),
                        forall|j: int| 0 <= j < i ==> !(#[trigger] kinds@[j]).has_token(*kind),
                    decreases kinds@.len() - i,
                {
                    if kinds[i].names(kind) {
                        return true;
                    }
                    i += 1;
                }
                false
            },
            StartTokens::One(tok) => tok.names(kind),
            StartTokens::Token(tok) => tok.same(kind),
        }
    }

    /// Puts the kinds of the tree that `vec` does not hold yet at its end,
    /// each once.
    #[verifier::loop_isolation(false)]
    pub fn append_vec(&self, vec: &mut Vec<T>)
        ensures
            final(vec)@ == self.appended(old(vec)@),
        decreases self, 0nat,
    {
        match self {
            StartTokens::Any(kinds) => {
                let mut i: usize = 0;
                while i < kinds.len()
                    invariant
                        i <= kinds@.len(),
                        vec@ == Self::appended_all(kinds@, i as nat, old(vec)@),
                    decreases kinds@.len() - i,
                {
                    kinds[i].append_vec(vec);
                    i += 1;
                }
            },
            StartTokens::One(kind) => kind.append_vec(vec),
            StartTokens::Token(kind) => {
                if !holds(vec, kind) {
                    vec.push(*kind);
                }
            },
            StartTokens::All => {},
        }
    }

    /// The kinds of the tree, each once, in the order of their first leaves.
    pub fn to_vec(&self) -> (vec: Vec<T>)
        ensures
            vec@ == self@.kinds,
    {
        let mut vec = Vec::new();
        self.append_vec(&mut vec);
        vec
    }
}

impl<T: TokenKind> StartTokens<T> {
    /// What the leaves stand for: `All` for anything, a token for its kind
    /// alone, and a reference to another set for that set.
    pub proof fn lemma_leaves(kind: T, inner: StartTokens<T>)
        ensures
            StartTokens::<T>::All@ == StartSet::<T>::anything(),
            StartTokens::Token(kind)@ == (StartSet { kinds: seq![kind], all: false }),
            StartTokens::One(Box::new(inner))@ == inner@,
    {
        let acc = Seq::<T>::empty();
        assert(StartTokens::<T>::All.appended(acc) =~= acc);
        assert(StartTokens::Token(kind).appended(acc) =~= seq![kind]);
    }
}

/// `vec` holds `kind`.
pub fn holds<T: TokenKind>(vec: &Vec<T>, kind: &T) -> (r: bool)
    ensures
        r == vec@.contains(*kind),
{
    let mut i: usize = 0;
    while i < vec.len()
        invariant
            i <= vec@.len(),
            forall|j: int| 0 <= j < i ==> vec@[j] != *kind,
        decreases vec@.len() - i,
    {
        if vec[i].same(kind) {
            return true;
        }
        i += 1;
    }
    false
}

/// A cursor over tokens.
///
/// As a [`Lexer`] does, every parser describes what it will read as a
/// [`Stream`]. A read that fails leaves the parser where it stood.
pub trait Parser<T>: Sized {
    /// The parser is in a state in which it may be used.
    spec fn inv(&self) -> bool;

    /// What is left to read.
    spec fn stream(&self) -> Stream<T>;

    /// A usable parser has a well-formed stream.
    proof fn lemma_inv(&self)
        requires
            self.inv(),
        ensures
            self.stream().wf(),
    ;

    /// Returns a [`Span`] of `length` at the start of the next token, or at
    /// the end of the input.
    fn span(&mut self, length: usize) -> (s: Span)
        requires
            old(self).inv(),
        ensures
            final(self).inv(),
            final(self).stream() == old(self).stream(),
            s == old(self).stream().here().with_length(length),
    ;

    /// Consumes one token. Fails at the end of the input, with
    /// `UnexpectedEof` where the input is exhausted.
    fn next(&mut self) -> (r: Result<T, Error>)
        requires
            old(self).inv(),
        ensures
            final(self).inv(),
            old(self).stream().len() > 0 ==> final(self).stream() == old(self).stream().skip(1)
                && (r matches Ok(v) && v == old(self).stream().units[0]),
            old(self).stream().len() == 0 ==> final(self).stream() == old(self).stream() && (
            r matches Err(e) && e@.span is Some && (old(self).stream().clean ==> e@.kind
                == ErrorKind::UnexpectedEof && e@.span == Some(old(self).stream().here()))),
    ;

    /// Looks at the next token without consuming it. `Ok(None)` where the
    /// input is exhausted; an error where what follows is no token.
    fn peek(&mut self) -> (r: Result<Option<&T>, Error>)
        requires
            old(self).inv(),
        ensures
            final(self).inv(),
            final(self).stream() == old(self).stream(),
            old(self).stream().len() > 0 ==> (r matches Ok(Some(v)) && *v == old(self).stream().units[0]),
            old(self).stream().is_empty() ==> r matches Ok(None),
            old(self).stream().len() == 0 && !old(self).stream().clean ==> (r matches Err(e)
                && e@.span is Some),
    ;

    /// The input is exhausted.
    fn is_empty(&mut self) -> (r: bool)
        requires
            old(self).inv(),
        ensures
            final(self).inv(),
            final(self).stream() == old(self).stream(),
            r == old(self).stream().is_empty(),
    ;

    /// An independent copy of the parser, at the same position.
    fn fork(&mut self) -> (r: Self)
        requires
            old(self).inv(),
        ensures
            final(self).inv(),
            final(self).stream() == old(self).stream(),
            r.inv(),
            r.stream() == old(self).stream(),
    ;
}

/// A grammar production.
///
/// `parse_len` and `parse_value` say what `parse` does on every input, and
/// `start_spec` which kinds a successful parse may begin with.
pub trait Parse: Sized {
    type Token: Token + Clone;

    /// The kinds that may begin the production. A production that states
    /// nothing may begin with anything.
    open spec fn start_spec() -> StartSet<<Self::Token as Token>::Kind> {
        StartSet::anything()
    }

    /// The number of tokens that parsing `input` consumes, or `None` where
    /// parsing fails. A production that states nothing is taken never to
    /// parse.
    open spec fn parse_len(input: Stream<Self::Token>) -> Option<nat> {
        None
    }

    /// `value` is what parsing `input` returns.
    open spec fn parse_value(input: Stream<Self::Token>, value: Self) -> bool {
        false
    }

    /// The start set of the production.
    fn start() -> (s: StartTokens<<Self::Token as Token>::Kind>)
        ensures
            s@ == Self::start_spec(),
    ;

    /// Reads one value. On failure the parser may have been advanced.
    ///
    /// The last clause is the soundness of the start set: the first token a
    /// successful parse consumes has a kind that the start set contains.
    fn parse<S: Parser<Self::Token>>(parser: &mut S) -> (r: Result<Self, Error>)
        requires
            old(parser).inv(),
            lawful::<Self::Token>(),
        ensures
            final(parser).inv(),
            match Self::parse_len(old(parser).stream()) {
                Some(n) => n <= old(parser).stream().len() && final(parser).stream() == old(parser).stream().skip(n as int) && (r matches Ok(v) && Self::parse_value(
                    old(parser).stream(),
                    v,
                )),
                None => r is Err,
            },
            r matches Err(e) ==> e@.span is Some,
            Self::parse_len(old(parser).stream()) matches Some(n) && n > 0
                ==> Self::start_spec().contains(old(parser).stream().units[0].kind_spec()),
    ;
}

/// The value that parsing a `T` from `input` returns.
pub open spec fn parsed<T: Parse>(input: Stream<T::Token>) -> T {
    choose|v: T| T::parse_value(input, v)
}

/// Parsing `T` returns one value on each input.
pub open spec fn parse_deterministic<T: Parse>() -> bool {
    forall|input: Stream<T::Token>, a: T, b: T|
        #![trigger T::parse_value(input, a), T::parse_value(input, b)]
        T::parse_value(input, a) && T::parse_value(input, b) ==> a == b
}

/// [`Parse::parse_len`] of `T`, as a value.
pub open spec fn parse_len_fn<T: Parse>() -> spec_fn(Stream<T::Token>) -> Option<nat> {
    |input: Stream<T::Token>| T::parse_len(input)
}

/// [`parsed`] of `T`, as a value.
pub open spec fn parsed_fn<T: Parse>() -> spec_fn(Stream<T::Token>) -> T {
    |input: Stream<T::Token>| parsed::<T>(input)
}

/// The productions `T` that stand one after another in `input`.
pub open spec fn productions<T: Parse>(input: Stream<T::Token>) -> Stream<T> {
    regroup(input, parse_len_fn::<T>(), parsed_fn::<T>())
}

/// What one token of lookahead says of whether `P` is next in `input`:
/// nothing at the end of the input, else what the start set of `P` decides of
/// the kind of the first token.
pub open spec fn is_next_spec<P: Parse>(input: Stream<P::Token>) -> Option<bool> {
    if input.len() > 0 {
        P::start_spec().decides(input.units[0].kind_spec())
    } else {
        None
    }
}

/// What [`try_parse`] returns on `input`, and how far it reads: a value and
/// the tokens read, `None` for "not present", or an error.
pub open spec fn try_parse_len<P: Parse>(input: Stream<P::Token>) -> Result<Option<nat>, ()> {
    match is_next_spec::<P>(input) {
        Some(true) => match P::parse_len(input) {
            Some(n) => Ok(Some(n)),
            None => Err(()),
        },
        Some(false) => Ok(None),
        None => match P::parse_len(input) {
            Some(n) => Ok(Some(n)),
            None => Ok(None),
        },
    }
}

/// Parses a `P`: the production is required, and its error is returned.
pub fn parse<P: Parse, S: Parser<P::Token>>(parser: &mut S) -> (r: Result<P, Error>)
    requires
        old(parser).inv(),
        lawful::<P::Token>(),
    ensures
        final(parser).inv(),
        match P::parse_len(old(parser).stream()) {
            Some(n) => n <= old(parser).stream().len() && final(parser).stream() == old(parser).stream().skip(n as int) && (r matches Ok(v) && P::parse_value(
                old(parser).stream(),
                v,
            )),
            None => r is Err,
        },
        r matches Err(e) ==> e@.span is Some,
        P::parse_len(old(parser).stream()) matches Some(n) && n > 0 ==> P::start_spec().contains(
            old(parser).stream().units[0].kind_spec(),
        ),
{
    P::parse(parser)
}

/// Peeks one token and asks the start set of `P` whether `P` is next.
pub fn is_next<P: Parse, S: Parser<P::Token>>(parser: &mut S) -> (r: Option<bool>)
    requires
        old(parser).inv(),
        lawful::<P::Token>(),
    ensures
        final(parser).inv(),
        final(parser).stream() == old(parser).stream(),
        r == is_next_spec::<P>(old(parser).stream()),
{
    let start = P::start();
    match parser.peek() {
        Ok(Some(token)) => {
            let kind = token.kind();
            proof {
                start.lemma_view();
            }
            if start.names(&kind) {
                Some(true)
            } else if start.catches_all() {
                None
            } else {
                Some(false)
            }
        },
        _ => None,
    }
}

/// Parses a `P` if one is there.
///
/// Where the start set of `P` names the kind of the next token, `P` is
/// parsed at once and its error is returned. Where the start set rules the
/// token out, nothing is read. Where one token cannot tell, `P` is parsed on a
/// fork, which is committed on success and dropped on failure: the parser
/// then stands where it stood, and `P` is reported as not present.
pub fn try_parse<P: Parse, S: Parser<P::Token>>(parser: &mut S) -> (r: Result<Option<P>, Error>)
    requires
        old(parser).inv(),
        lawful::<P::Token>(),
    ensures
        final(parser).inv(),
        match try_parse_len::<P>(old(parser).stream()) {
            Ok(Some(n)) => n <= old(parser).stream().len() && final(parser).stream() == old(parser).stream().skip(n as int) && (r matches Ok(Some(v)) && P::parse_value(
                old(parser).stream(),
                v,
            )),
            Ok(None) => r matches Ok(None) && final(parser).stream() == old(parser).stream(),
            Err(_) => r matches Err(e) && e@.span is Some,
        },
        try_parse_len::<P>(old(parser).stream()) matches Ok(Some(n)) && n > 0
            ==> P::start_spec().contains(old(parser).stream().units[0].kind_spec()),
{
    match is_next::<P, S>(parser) {
        Some(true) => match P::parse(parser) {
            Ok(value) => Ok(Some(value)),
            Err(e) => Err(e),
        },
        Some(false) => Ok(None),
        None => {
            let mut fork = parser.fork();
            match P::parse(&mut fork) {
                Ok(value) => {
                    *parser = fork;
                    Ok(Some(value))
                },
                Err(_) => Ok(None),
            }
        },
    }
}

/// The names of `kinds`, in order.
pub open spec fn names_of<K: TokenKind>(kinds: Seq<K>) -> Seq<Seq<char>> {
    Seq::new(kinds.len(), |i: int| kinds[i].name_spec())
}

/// Consumes one token and fails unless it is of `kind`.
///
/// The span that comes with the token, and with the error, reaches from the
/// start of the token to the start of what follows it.
pub fn expect_kind<Tok: Token, S: Parser<Tok>>(parser: &mut S, kind: Tok::Kind) -> (r: Result<
    (Tok, Span),
    Error,
>)
    requires
        old(parser).inv(),
    ensures
        final(parser).inv(),
        r is Ok <==> old(parser).stream().len() > 0 && old(parser).stream().units[0].kind_spec()
            == kind,
        final(parser).stream() == if old(parser).stream().len() > 0 {
            old(parser).stream().skip(1)
        } else {
            old(parser).stream()
        },
        r matches Ok(found) ==> found.0 == old(parser).stream().units[0] && found.1 == old(parser).stream().unit_span(0),
        r matches Err(e) ==> e@.span is Some,
        r matches Err(e) ==> (old(parser).stream().is_empty() ==> e@.kind
            == ErrorKind::UnexpectedEof && e@.span == Some(old(parser).stream().here())),
        r matches Err(e) ==> (old(parser).stream().len() > 0 ==> e@.kind == ErrorKind::Expected
            && e@.span == Some(old(parser).stream().unit_span(0)) && e@.message
            == crate::error::expected_text(kind.name_spec())),
{
    let ghost input = parser.stream();
    proof {
        parser.lemma_inv();
        if input.len() > 0 {
            lemma_skip(input, 1, 0);
        }
    }
    let start = parser.span(0);
    let token = match parser.next() {
        Ok(token) => token,
        Err(e) => {
            return Err(e);
        },
    };
    let end = parser.span(0);
    let span = start.merged(end);
    let found = token.kind();
    if found.same(&kind) {
        Ok((token, span))
    } else {
        Err(Error::expected(span, kind.name(), found.name()))
    }
}

/// Consumes one token and fails unless it is equal to `token`.
///
/// The error is `UnexpectedEof` where the input is exhausted, and else names
/// the kind of `token` against the kind of what was found, over the span of
/// what was found.
pub fn expect_token<Tok: Token + PartialEq, S: Parser<Tok>>(parser: &mut S, token: &Tok) -> (r:
    Result<(), Error>)
    requires
        old(parser).inv(),
        vstd::laws_eq::obeys_concrete_eq::<Tok>(),
    ensures
        final(parser).inv(),
        r is Ok <==> old(parser).stream().len() > 0 && old(parser).stream().units[0] == *token,
        final(parser).stream() == if old(parser).stream().len() > 0 {
            old(parser).stream().skip(1)
        } else {
            old(parser).stream()
        },
        r matches Err(e) ==> e@.span is Some,
        r matches Err(e) ==> (old(parser).stream().is_empty() ==> e@.kind
            == ErrorKind::UnexpectedEof && e@.span == Some(old(parser).stream().here())),
        r matches Err(e) ==> (old(parser).stream().len() > 0 ==> e@.kind == ErrorKind::Expected
            && e@.span == Some(old(parser).stream().unit_span(0)) && e@.message
            == crate::error::expected_text(token.kind_spec().name_spec())),
{
    let ghost input = parser.stream();
    proof {
        parser.lemma_inv();
        if input.len() > 0 {
            lemma_skip(input, 1, 0);
        }
    }
    let start = parser.span(0);
    let found = match parser.next() {
        Ok(found) => found,
        Err(e) => {
            return Err(e);
        },
    };
    let end = parser.span(0);
    proof {
        reveal(vstd::laws_eq::obeys_concrete_eq);
    }
    if found == *token {
        Ok(())
    } else {
        let wanted = token.kind();
        let kind = found.kind();
        Err(Error::expected(start.merged(end), wanted.name(), kind.name()))
    }
}

/// Consumes one token, whatever it is, and fails at the end of the input.
pub fn consume<T, S: Parser<T>>(parser: &mut S) -> (r: Result<(), Error>)
    requires
        old(parser).inv(),
    ensures
        final(parser).inv(),
        r is Ok <==> old(parser).stream().len() > 0,
        final(parser).stream() == if old(parser).stream().len() > 0 {
            old(parser).stream().skip(1)
        } else {
            old(parser).stream()
        },
        r matches Err(e) ==> e@.span is Some && (old(parser).stream().clean ==> e@.kind
            == ErrorKind::UnexpectedEof && e@.span == Some(old(parser).stream().here())),
{
    match parser.next() {
        Ok(_) => Ok(()),
        Err(e) => Err(e),
    }
}

/// The error of a production with alternatives, none of which is next: it
/// lists the kinds that the start set of `P` names, against the kind that was
/// found, or `eof`. Nothing is consumed.
pub fn expected_one_of<P: Parse, S: Parser<P::Token>>(parser: &mut S) -> (e: Error)
    requires
        old(parser).inv(),
    ensures
        final(parser).inv(),
        final(parser).stream() == old(parser).stream(),
        e@.span is Some,
        old(parser).stream().len() > 0 || old(parser).stream().clean ==> e@.kind
            == ErrorKind::ExpectedOne && e@.span == Some(old(parser).stream().here())
            && e@.message == crate::error::expected_one_text(names_of(P::start_spec().kinds))
            && e@.hints.len() == 1 && e@.hints[0].msg == crate::error::found_text(
            if old(parser).stream().len() > 0 {
                old(parser).stream().units[0].kind_spec().name_spec()
            } else {
                "eof"@
            },
        ),
{
    let start = P::start();
    let kinds = start.to_vec();
    let mut names: Vec<&str> = Vec::new();
    let mut i: usize = 0;
    while i < kinds.len()
        invariant
            i <= kinds@.len(),
            names@.len() == i,
            forall|j: int| 0 <= j < i ==> (#[trigger] names@[j])@ == kinds@[j].name_spec(),
        decreases kinds@.len() - i,
    {
        names.push(kinds[i].name());
        i += 1;
    }
    assert(Seq::new(names@.len(), |i: int| names@[i]@) =~= names_of(kinds@));
    proof {
        parser.lemma_inv();
    }
    let span = parser.span(0);
    match parser.peek() {
        Ok(Some(token)) => {
            let found = token.kind();
            Error::expected_one(span, names.as_slice(), found.name())
        },
        Ok(None) => Error::expected_one(span, names.as_slice(), "eof"),
        Err(e) => e,
    }
}

/// The production that nothing matches: it never parses, and no kind begins
/// it. As the terminator of a list it lets the list run to the end of the
/// input.
#[derive(Debug)]
pub struct Nothing<Tok> {
    marker: core::marker::PhantomData<Tok>,
}

impl<Tok: Token + Clone> Parse for Nothing<Tok> {
    type Token = Tok;

    open spec fn start_spec() -> StartSet<Tok::Kind> {
        StartSet { kinds: Seq::empty(), all: false }
    }

    fn start() -> (s: StartTokens<Tok::Kind>) {
        let none: Vec<StartTokens<Tok::Kind>> = Vec::new();
        let ghost trees = none@;
        let s: StartTokens<Tok::Kind> = StartTokens::Any(none);
        proof {
            let acc = Seq::<Tok::Kind>::empty();
            assert(StartTokens::appended_all(trees, 0, acc) == acc);
            assert(s.appended(acc) == StartTokens::appended_all(trees, trees.len(), acc));
            assert(!s.has_all());
        }
        s
    }

    /// Fails, with a message about the position of the parser, and reads
    /// nothing.
    fn parse<S: Parser<Tok>>(parser: &mut S) -> (r: Result<Self, Error>)
        ensures
            final(parser).stream() == old(parser).stream(),
            r matches Err(e) && e@.kind == ErrorKind::Message && e@.span == Some(
                old(parser).stream().here(),
            ) && e@.message == "nothing can be parsed here"@,
    {
        proof {
            parser.lemma_inv();
        }
        Err(Error::spanned(parser.span(0), "nothing can be parsed here"))
    }
}

/// The number of white-space characters at the front of `units`.
pub open spec fn ws_len(units: Seq<char>) -> nat
    decreases units.len(),
{
    if units.len() > 0 && is_white_space(units[0]) {
        1 + ws_len(units.skip(1))
    } else {
        0
    }
}

/// `input` without the white space at its front.
pub open spec fn skip_ws(input: Stream<char>) -> Stream<char> {
    input.skip(ws_len(input.units) as int)
}

/// The tokens of type `T` in `input`, with white space between them skipped.
///
/// The tokens end where the input does, where no `T` can be lexed, or where a
/// `T` would consume nothing; only the first of these is a clean end. Each
/// token starts after the white space before it.
pub open spec fn tokens<T: Lex<char>>(input: Stream<char>) -> Stream<T>
    decreases input.units.len(),
{
    let gap = ws_len(input.units);
    if gap > input.units.len() {
        ended(input.here(), false)
    } else {
        let trimmed = input.skip(gap as int);
        match T::lex_len(trimmed) {
            Some(n) => if 0 < n <= trimmed.units.len() {
                prepend(lexed::<char, T>(trimmed), trimmed.here(), tokens::<T>(trimmed.skip(n as int)))
            } else {
                ended(trimmed.here(), trimmed.units.len() == 0)
            },
            None => ended(trimmed.here(), trimmed.units.len() == 0),
        }
    }
}

/// White space at the front is no longer than the input, and none is left
/// once it has been skipped.
pub proof fn lemma_ws_len(units: Seq<char>)
    ensures
        ws_len(units) <= units.len(),
        ws_len(units.skip(ws_len(units) as int)) == 0,
        ws_len(units) == 0 <==> (units.len() == 0 || !is_white_space(units[0])),
    decreases units.len(),
{
    if units.len() > 0 && is_white_space(units[0]) {
        lemma_ws_len(units.skip(1));
        assert(units.skip(1).skip(ws_len(units.skip(1)) as int) =~= units.skip(
            ws_len(units) as int,
        ));
    } else {
        assert(units.skip(0) =~= units);
    }
}

/// Skipping white space once is skipping it for good, and the tokens of an
/// input are the tokens of what follows its leading white space.
pub proof fn lemma_skip_ws<T: Lex<char>>(input: Stream<char>)
    requires
        input.wf(),
    ensures
        skip_ws(input).wf(),
        skip_ws(skip_ws(input)) == skip_ws(input),
        ws_len(skip_ws(input).units) == 0,
        tokens::<T>(skip_ws(input)) == tokens::<T>(input),
        skip_ws(input).here().same_source(input.here()),
        input.here().offset <= skip_ws(input).here().offset,
        input.units.len() > 0 && is_white_space(input.units[0]) ==> skip_ws(input.skip(1))
            == skip_ws(input),
        ws_len(input.units) == 0 ==> skip_ws(input) == input,
{
    lemma_ws_len(input.units);
    let gap = ws_len(input.units) as int;
    lemma_skip(input, gap, 0);
    lemma_skip(input, 0, 0);
    if input.units.len() > 0 && is_white_space(input.units[0]) {
        lemma_skip(input, 1, gap - 1);
    }
}

/// The tokens of a well-formed input are a well-formed stream, which starts
/// where the input's leading white space ends.
pub proof fn lemma_tokens<T: Lex<char>>(input: Stream<char>)
    requires
        input.wf(),
    ensures
        tokens::<T>(input).wf(),
        tokens::<T>(input).here() == skip_ws(input).here(),
        tokens::<T>(input).here().same_source(input.here()),
        input.here().offset <= tokens::<T>(input).here().offset,
        tokens::<T>(input).is_empty() <==> skip_ws(input).units.len() == 0,
    decreases input.units.len(),
{
    lemma_skip_ws::<T>(input);
    lemma_ws_len(input.units);
    let trimmed = skip_ws(input);
    let out = tokens::<T>(input);
    match T::lex_len(trimmed) {
        Some(n) => {
            if 0 < n <= trimmed.units.len() {
                let after = trimmed.skip(n as int);
                lemma_skip(trimmed, n as int, 0);
                lemma_tokens::<T>(after);
                let rest = tokens::<T>(after);
                assert(out == prepend(lexed::<char, T>(trimmed), trimmed.here(), rest));
                assert forall|i: int| 0 <= i < out.marks.len() implies (#[trigger] out.marks[i]).length
                    == 0 && out.marks[i].same_source(out.marks[0]) by {
                    if i > 0 {
                        assert(out.marks[i] == rest.marks[i - 1]);
                        assert(rest.marks[i - 1].same_source(rest.marks[0]));
                    }
                }
                assert forall|i: int, j: int| 0 <= i < j < out.marks.len() implies (
                #[trigger] out.marks[i]).offset < (#[trigger] out.marks[j]).offset by {
                    assert(out.marks[j] == rest.marks[j - 1]);
                    if i > 0 {
                        assert(out.marks[i] == rest.marks[i - 1]);
                    } else if j > 1 {
                        assert(rest.marks[0].offset < rest.marks[j - 1].offset);
                    }
                }
            }
        },
        None => {},
    }
}

/// The tokens of an input that has no white space in front of it: where a
/// token can be lexed, that token and the tokens of what follows it; else
/// none.
pub proof fn lemma_tokens_step<T: Lex<char>>(input: Stream<char>)
    requires
        input.wf(),
        ws_len(input.units) == 0,
    ensures
        T::lex_len(input) matches Some(n) && 0 < n <= input.len() ==> tokens::<T>(input) == prepend(
            lexed::<char, T>(input),
            input.here(),
            tokens::<T>(input.skip(T::lex_len(input)->0 as int)),
        ) && tokens::<T>(input).skip(1) == tokens::<T>(input.skip(T::lex_len(input)->0 as int))
            && tokens::<T>(input).units[0] == lexed::<char, T>(input),
        !(T::lex_len(input) matches Some(n) && 0 < n <= input.len()) ==> tokens::<T>(input)
            == ended::<T>(input.here(), input.len() == 0),
{
    lemma_skip(input, 0, 0);
    if T::lex_len(input) matches Some(n) && 0 < n <= input.len() {
        let n = T::lex_len(input)->0;
        let after = input.skip(n as int);
        lemma_skip(input, n as int, 0);
        lemma_tokens::<T>(after);
        crate::stream::lemma_prepend(
            lexed::<char, T>(input),
            input.here(),
            tokens::<T>(after),
        );
    }
}

/// Moves `lexer` past the white space in front of it.
pub fn skip_whitespace<L: Lexer<Output = char>>(lexer: &mut L)
    requires
        old(lexer).inv(),
    ensures
        final(lexer).inv(),
        final(lexer).stream() == skip_ws(old(lexer).stream()),
{
    let ghost start = lexer.stream();
    proof {
        lexer.lemma_inv();
    }
    loop
        invariant
            lexer.inv(),
            lexer.stream().wf(),
            skip_ws(lexer.stream()) == skip_ws(start),
        ensures
            lexer.inv(),
            lexer.stream() == skip_ws(start),
        decreases lexer.stream().len(),
    {
        let ghost cur = lexer.stream();
        proof {
            lemma_skip_ws::<char>(cur);
            lemma_ws_len(cur.units);
        }
        let white = match lexer.peek() {
            Some(c) => is_whitespace(*c),
            None => false,
        };
        if !white {
            break;
        }
        lexer.consume();
        proof {
            lemma_skip(cur, 1, 0);
        }
    }
}

/// A [`Parser`] that lexes its tokens from a lexer of characters, and skips
/// the white space between them.
pub struct SkipWhitespace<L, T> {
    lexer: L,
    peek: Option<(T, Span)>,
}

impl<L: Lexer<Output = char>, T: Lex<char> + Clone> SkipWhitespace<L, T> {
    /// The lexer that the tokens are read from.
    pub closed spec fn source(&self) -> L {
        self.lexer
    }

    /// The token that has been looked at and not consumed, with the position
    /// at which it starts.
    pub closed spec fn peeked(&self) -> Option<(T, Span)> {
        self.peek
    }

    /// A parser of the tokens of `lexer`.
    #[inline]
    pub fn new(lexer: L) -> (parser: Self)
        requires
            lexer.inv(),
            lex_deterministic::<char, T>(),
            clones_exactly::<T>(),
        ensures
            parser.inv(),
            parser.source() == lexer,
            parser.peeked() is None,
            parser.stream() == tokens::<T>(lexer.stream()),
    {
        SkipWhitespace { lexer, peek: None }
    }

    /// Moves the lexer past the white space in front of it.
    fn skip_whitespace(&mut self)
        requires
            old(self).lexer.inv(),
        ensures
            final(self).lexer.inv(),
            final(self).lexer.stream() == skip_ws(old(self).lexer.stream()),
            final(self).peek == old(self).peek,
    {
        skip_whitespace(&mut self.lexer);
    }

    /// Lexes one token on a fork of the lexer, which has no white space in
    /// front of it, and commits the fork where the token consumed input.
    fn read(&mut self) -> (r: Result<(T, Span), Error>)
        requires
            old(self).lexer.inv(),
            lex_deterministic::<char, T>(),
            ws_len(old(self).lexer.stream().units) == 0,
        ensures
            final(self).lexer.inv(),
            final(self).peek == old(self).peek,
            tokens::<T>(old(self).lexer.stream()).len() > 0 ==> (r matches Ok(found)
                && prepend(found.0, found.1, tokens::<T>(final(self).lexer.stream()))
                == tokens::<T>(old(self).lexer.stream())
                && found.1 == old(self).lexer.stream().here()
                && found.1.offset < final(self).lexer.stream().here().offset
                && found.1.same_source(final(self).lexer.stream().here())),
            tokens::<T>(old(self).lexer.stream()).len() == 0 ==> final(self).lexer.stream()
                == old(self).lexer.stream() && (r matches Err(e) && e@.span is Some && (
            tokens::<T>(old(self).lexer.stream()).clean ==> e@.kind == ErrorKind::UnexpectedEof
                && e@.span == Some(old(self).lexer.stream().here()))),
    {
        let ghost input = self.lexer.stream();
        proof {
            self.lexer.lemma_inv();
            lemma_skip(input, 0, 0);
        }
        let at = self.lexer.span(0);
        if self.lexer.is_empty() {
            return Err(Error::unexpected_eof(at));
        }
        let mut fork = self.lexer.fork();
        match T::lex(&mut fork) {
            Ok(token) => {
                let after = fork.span(0);
                let ghost n = T::lex_len(input)->0;
                proof {
                    lemma_skip(input, n as int, 0);
                    fork.lemma_inv();
                }
                if after.offset == at.offset {
                    Err(Error::spanned(at, "a token must consume input"))
                } else {
                    self.lexer = fork;
                    assert(token == lexed::<char, T>(input));
                    Ok((token, at))
                }
            },
            Err(e) => Err(e),
        }
    }
}

impl<L: Lexer<Output = char>, T: Lex<char> + Clone> Parser<T> for SkipWhitespace<L, T> {
    closed spec fn inv(&self) -> bool {
        &&& self.lexer.inv()
        &&& lex_deterministic::<char, T>()
        &&& clones_exactly::<T>()
        &&& self.peek matches Some(found) ==> found.1.length == 0 && found.1.same_source(
            self.lexer.stream().here(),
        ) && found.1.offset < self.lexer.stream().here().offset
    }

    closed spec fn stream(&self) -> Stream<T> {
        match self.peek {
            Some(found) => prepend(found.0, found.1, tokens::<T>(self.lexer.stream())),
            None => tokens::<T>(self.lexer.stream()),
        }
    }

    proof fn lemma_inv(&self) {
        self.lexer.lemma_inv();
        lemma_tokens::<T>(self.lexer.stream());
        let rest = tokens::<T>(self.lexer.stream());
        match self.peek {
            Some(found) => {
                let out = self.stream();
                assert forall|i: int| 0 <= i < out.marks.len() implies (#[trigger] out.marks[i]).length
                    == 0 && out.marks[i].same_source(out.marks[0]) by {
                    if i > 0 {
                        assert(out.marks[i] == rest.marks[i - 1]);
                        assert(rest.marks[i - 1].same_source(rest.marks[0]));
                    }
                }
                assert forall|i: int, j: int| 0 <= i < j < out.marks.len() implies (
                #[trigger] out.marks[i]).offset < (#[trigger] out.marks[j]).offset by {
                    assert(out.marks[j] == rest.marks[j - 1]);
                    if i > 0 {
                        assert(out.marks[i] == rest.marks[i - 1]);
                    } else if j > 1 {
                        assert(rest.marks[0].offset < rest.marks[j - 1].offset);
                    }
                }
            },
            None => {},
        }
    }

    fn span(&mut self, length: usize) -> (s: Span) {
        proof {
            self.lexer.lemma_inv();
            lemma_skip_ws::<T>(self.lexer.stream());
            lemma_tokens::<T>(self.lexer.stream());
        }
        match &self.peek {
            Some(found) => found.1.with_len(length),
            None => {
                self.skip_whitespace();
                proof {
                    lemma_skip(self.lexer.stream(), 0, 0);
                }
                self.lexer.span(length)
            },
        }
    }

    fn next(&mut self) -> (r: Result<T, Error>) {
        proof {
            self.lexer.lemma_inv();
            lemma_skip_ws::<T>(self.lexer.stream());
            lemma_tokens::<T>(self.lexer.stream());
        }
        match self.peek.take() {
            Some(found) => {
                let ghost rest = tokens::<T>(self.lexer.stream());
                assert(prepend(found.0, found.1, rest).skip(1).units =~= rest.units);
                assert(prepend(found.0, found.1, rest).skip(1).marks =~= rest.marks);
                Ok(found.0)
            },
            None => {
                self.skip_whitespace();
                match self.read() {
                    Ok(found) => {
                        let ghost rest = tokens::<T>(self.lexer.stream());
                        assert(prepend(found.0, found.1, rest).skip(1).units =~= rest.units);
                        assert(prepend(found.0, found.1, rest).skip(1).marks =~= rest.marks);
                        Ok(found.0)
                    },
                    Err(e) => Err(e),
                }
            },
        }
    }

    fn peek(&mut self) -> (r: Result<Option<&T>, Error>) {
        proof {
            self.lexer.lemma_inv();
            lemma_skip_ws::<T>(self.lexer.stream());
            lemma_tokens::<T>(self.lexer.stream());
        }
        if self.peek.is_none() {
            self.skip_whitespace();
            if self.lexer.is_empty() {
                return Ok(None);
            }
            match self.read() {
                Ok(found) => {
                    self.peek = Some(found);
                },
                Err(e) => {
                    return Err(e);
                },
            }
        }
        match &self.peek {
            Some(found) => Ok(Some(&found.0)),
            None => Ok(None),
        }
    }

    fn is_empty(&mut self) -> (r: bool) {
        proof {
            self.lexer.lemma_inv();
            lemma_skip_ws::<T>(self.lexer.stream());
            lemma_tokens::<T>(self.lexer.stream());
        }
        if self.peek.is_some() {
            false
        } else {
            self.skip_whitespace();
            self.lexer.is_empty()
        }
    }

    fn fork(&mut self) -> (r: Self) {
        let peek = match &self.peek {
            Some(found) => {
                let token = found.0.clone();
                assert(cloned(found.0, token));
                Some((token, found.1))
            },
            None => None,
        };
        SkipWhitespace { lexer: self.lexer.fork(), peek }
    }
}

} // verus!
