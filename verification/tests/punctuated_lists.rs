use lasagna::{
    parse, CharsLexer, Error, Lex, Lexer, Parse, Parser, Punctuated, SkipWhitespace, SourcePath,
    Span, StartTokens, Token, TokenKind,
};

#[derive(Clone, Copy, Debug, PartialEq, Eq)]
enum Kind {
    Ident,
    Comma,
    Semi,
}

impl TokenKind for Kind {
    fn same(&self, other: &Self) -> bool {
        self == other
    }

    fn name(&self) -> &str {
        match self {
            Kind::Ident => "identifier",
            Kind::Comma => ",",
            Kind::Semi => ";",
        }
    }
}

#[derive(Clone, Debug, PartialEq, Eq)]
enum Tok {
    Ident(char),
    Comma,
    Semi,
}

impl Lex<char> for Tok {
    fn lex<L: Lexer<Output = char>>(lexer: &mut L) -> Result<Self, Error> {
        let at = lexer.span(1);
        match lexer.next() {
            Some(',') => Ok(Tok::Comma),
            Some(';') => Ok(Tok::Semi),
            Some(c) if c.is_alphabetic() => Ok(Tok::Ident(c)),
            Some(c) => Err(Error::expected(at, "token", &c.to_string())),
            None => Err(Error::expected(at, "token", "eof")),
        }
    }
}

impl Token<char> for Tok {
    type Kind = Kind;

    fn kind(&self) -> Kind {
        match self {
            Tok::Ident(_) => Kind::Ident,
            Tok::Comma => Kind::Comma,
            Tok::Semi => Kind::Semi,
        }
    }
}

#[derive(Debug, PartialEq, Eq)]
struct Ident(char, Span);

impl Parse for Ident {
    type Token = Tok;

    fn start() -> StartTokens<Kind> {
        StartTokens::Token(Kind::Ident)
    }

    fn parse<S: Parser<Tok>>(parser: &mut S) -> Result<Self, Error> {
        let span = parser.span(1);
        match parser.next()? {
            Tok::Ident(c) => Ok(Ident(c, span)),
            other => Err(Error::expected(span, "identifier", other.kind().name())),
        }
    }
}

#[derive(Debug, PartialEq, Eq)]
struct Comma(Span);

impl Parse for Comma {
    type Token = Tok;

    fn start() -> StartTokens<Kind> {
        StartTokens::Token(Kind::Comma)
    }

    fn parse<S: Parser<Tok>>(parser: &mut S) -> Result<Self, Error> {
        let span = parser.span(1);
        match parser.next()? {
            Tok::Comma => Ok(Comma(span)),
            other => Err(Error::expected(span, ",", other.kind().name())),
        }
    }
}

#[derive(Debug, PartialEq, Eq)]
struct Semi(Span);

impl Parse for Semi {
    type Token = Tok;

    fn start() -> StartTokens<Kind> {
        StartTokens::Token(Kind::Semi)
    }

    fn parse<S: Parser<Tok>>(parser: &mut S) -> Result<Self, Error> {
        let span = parser.span(1);
        match parser.next()? {
            Tok::Semi => Ok(Semi(span)),
            other => Err(Error::expected(span, ";", other.kind().name())),
        }
    }
}

fn parser_of(source: &'static str) -> SkipWhitespace<CharsLexer, Tok> {
    SkipWhitespace::new(CharsLexer::new(source, SourcePath::Generated))
}

#[test]
fn punctuated_without_trailing_punctuation() {
    let mut parser = parser_of("a,b,c");
    let list: Punctuated<Ident, Comma, Semi> = parse(&mut parser).unwrap();
    assert_eq!(list.values.len(), 3);
    assert_eq!(list.punctuation.len(), 2);
    assert!(list.termination.is_none());
    assert_eq!(list.values[0].0, 'a');
    assert_eq!(list.values[1].0, 'b');
    assert_eq!(list.values[2].0, 'c');
    assert_eq!(list.span.offset, 0);
    assert_eq!(list.span.length, 5);
}

#[test]
fn punctuated_with_trailing_punctuation() {
    let mut parser = parser_of("a,b,c,");
    let list: Punctuated<Ident, Comma, Semi> = parse(&mut parser).unwrap();
    assert_eq!(list.values.len(), 3);
    assert_eq!(list.punctuation.len(), 3);
    assert!(list.termination.is_none());
}

#[test]
fn punctuated_stops_in_front_of_the_terminator() {
    let mut parser = parser_of("a , b ; c");
    let list: Punctuated<Ident, Comma, Semi> = parse(&mut parser).unwrap();
    assert_eq!(list.values.len(), 2);
    assert_eq!(list.punctuation.len(), 1);
    assert!(list.termination.is_some());
    assert_eq!(parser.next().unwrap(), Tok::Semi);
    assert_eq!(parser.next().unwrap(), Tok::Ident('c'));
    assert!(parser.is_empty());
}
