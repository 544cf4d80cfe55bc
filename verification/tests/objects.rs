use lasagna::{
    is_next, lex_exact, parse, try_lex, try_parse, CharsLexer, Delimited, Error, ErrorKind, Lex,
    Lexer, Nothing, Parse, Parser, Punctuated, SkipWhitespace, SourcePath, Span, Spanned,
    StartTokens, Token, TokenKind,
};

#[derive(Clone, Copy, Debug, PartialEq, Eq)]
enum JsonKind {
    OpenBrace,
    CloseBrace,
    Equal,
    Comma,
    LitStr,
}

impl TokenKind for JsonKind {
    fn same(&self, other: &Self) -> bool {
        self == other
    }

    fn name(&self) -> &str {
        match self {
            JsonKind::OpenBrace => "OpenBrace",
            JsonKind::CloseBrace => "CloseBrace",
            JsonKind::Equal => "Equal",
            JsonKind::Comma => "Comma",
            JsonKind::LitStr => "LitStr",
        }
    }
}

#[derive(Clone, Debug, PartialEq, Eq)]
struct LitStr {
    span: Span,
    string: String,
}

impl Spanned for LitStr {
    fn span(&self) -> Span {
        self.span
    }
}

impl Lex<char> for LitStr {
    fn lex<L: Lexer<Output = char>>(lexer: &mut L) -> Result<Self, Error> {
        let start = lexer.span(0);
        lexer.expect('"')?;
        let mut string = String::new();
        loop {
            match lexer.next() {
                Some('"') => break,
                Some(c) => string.push(c),
                None => return Err(Error::spanned(start, "expected end to string")),
            }
        }
        Ok(LitStr { span: start | lexer.span(0), string })
    }
}

#[derive(Clone, Debug, PartialEq, Eq)]
enum JsonToken {
    OpenBrace,
    CloseBrace,
    Equal,
    Comma,
    LitStr(LitStr),
}

fn exact<L: Lexer<Output = char>>(lexer: &mut L, text: &'static str) -> bool {
    let mut fork = lexer.fork();
    if lex_exact(&mut fork, text).is_ok() {
        *lexer = fork;
        true
    } else {
        false
    }
}

impl Lex<char> for JsonToken {
    fn lex<L: Lexer<Output = char>>(lexer: &mut L) -> Result<Self, Error> {
        if exact(lexer, "{") {
            return Ok(JsonToken::OpenBrace);
        }
        if exact(lexer, "}") {
            return Ok(JsonToken::CloseBrace);
        }
        if exact(lexer, "=") {
            return Ok(JsonToken::Equal);
        }
        if exact(lexer, ",") {
            return Ok(JsonToken::Comma);
        }
        if let Some(lit) = try_lex::<char, LitStr, L>(lexer) {
            return Ok(JsonToken::LitStr(lit));
        }
        Err(Error::expected(lexer.span(0), "token", "eof"))
    }
}

impl Token<char> for JsonToken {
    type Kind = JsonKind;

    fn kind(&self) -> JsonKind {
        match self {
            JsonToken::OpenBrace => JsonKind::OpenBrace,
            JsonToken::CloseBrace => JsonKind::CloseBrace,
            JsonToken::Equal => JsonKind::Equal,
            JsonToken::Comma => JsonKind::Comma,
            JsonToken::LitStr(_) => JsonKind::LitStr,
        }
    }
}

fn punct<S: Parser<JsonToken>>(
    parser: &mut S,
    wanted: JsonKind,
) -> Result<Span, Error> {
    let start = parser.span(0);
    let token = parser.next()?;
    let span = start | parser.span(0);
    if token.kind() == wanted {
        Ok(span)
    } else {
        Err(Error::expected(span, wanted.name(), token.kind().name()))
    }
}

#[derive(Debug)]
struct OpenBrace(Span);

impl Parse for OpenBrace {
    type Token = JsonToken;

    fn start() -> StartTokens<JsonKind> {
        StartTokens::Token(JsonKind::OpenBrace)
    }

    fn parse<S: Parser<JsonToken>>(parser: &mut S) -> Result<Self, Error> {
        punct(parser, JsonKind::OpenBrace).map(OpenBrace)
    }
}

#[derive(Debug)]
struct CloseBrace(Span);

impl Parse for CloseBrace {
    type Token = JsonToken;

    fn start() -> StartTokens<JsonKind> {
        StartTokens::Token(JsonKind::CloseBrace)
    }

    fn parse<S: Parser<JsonToken>>(parser: &mut S) -> Result<Self, Error> {
        punct(parser, JsonKind::CloseBrace).map(CloseBrace)
    }
}

#[derive(Debug)]
struct Equal(Span);

impl Parse for Equal {
    type Token = JsonToken;

    fn start() -> StartTokens<JsonKind> {
        StartTokens::Token(JsonKind::Equal)
    }

    fn parse<S: Parser<JsonToken>>(parser: &mut S) -> Result<Self, Error> {
        punct(parser, JsonKind::Equal).map(Equal)
    }
}

#[derive(Debug)]
struct Comma(Span);

impl Parse for Comma {
    type Token = JsonToken;

    fn start() -> StartTokens<JsonKind> {
        StartTokens::Token(JsonKind::Comma)
    }

    fn parse<S: Parser<JsonToken>>(parser: &mut S) -> Result<Self, Error> {
        punct(parser, JsonKind::Comma).map(Comma)
    }
}

impl Parse for LitStr {
    type Token = JsonToken;

    fn start() -> StartTokens<JsonKind> {
        StartTokens::Token(JsonKind::LitStr)
    }

    fn parse<S: Parser<JsonToken>>(parser: &mut S) -> Result<Self, Error> {
        let start = parser.span(0);
        let token = parser.next()?;
        let span = start | parser.span(0);
        match token {
            JsonToken::LitStr(lit) => Ok(lit),
            other => Err(Error::expected(span, "LitStr", other.kind().name())),
        }
    }
}

type Entries = Punctuated<Entry, Comma, Nothing<JsonToken>>;

#[derive(Debug)]
struct Object(Delimited<OpenBrace, Entries, CloseBrace>);

impl Spanned for Object {
    fn span(&self) -> Span {
        self.0.left.0 | self.0.right.0
    }
}

impl Parse for Object {
    type Token = JsonToken;

    fn start() -> StartTokens<JsonKind> {
        StartTokens::One(Box::new(OpenBrace::start()))
    }

    fn parse<S: Parser<JsonToken>>(parser: &mut S) -> Result<Self, Error> {
        Ok(Object(parse(parser)?))
    }
}

#[derive(Debug)]
enum Value {
    Str(LitStr),
    Object(Object),
}

impl Parse for Value {
    type Token = JsonToken;

    fn start() -> StartTokens<JsonKind> {
        StartTokens::Any(vec![LitStr::start(), Object::start()])
    }

    fn parse<S: Parser<JsonToken>>(parser: &mut S) -> Result<Self, Error> {
        if is_next::<LitStr, S>(parser) == Some(true) {
            return Ok(Value::Str(parse(parser)?));
        }
        if is_next::<Object, S>(parser) == Some(true) {
            return Ok(Value::Object(parse(parser)?));
        }
        let span = parser.span(0);
        let kinds = Self::start().to_vec();
        let names: Vec<&str> = kinds.iter().map(|kind| kind.name()).collect();
        match parser.peek()? {
            Some(token) => Err(Error::expected_one(span, &names, token.kind().name())),
            None => Err(Error::expected_one(span, &names, "eof")),
        }
    }
}

#[derive(Debug)]
struct Entry {
    key: LitStr,
    equal: Equal,
    value: Value,
}

impl Parse for Entry {
    type Token = JsonToken;

    fn start() -> StartTokens<JsonKind> {
        LitStr::start()
    }

    fn parse<S: Parser<JsonToken>>(parser: &mut S) -> Result<Self, Error> {
        Ok(Entry { key: parse(parser)?, equal: parse(parser)?, value: parse(parser)? })
    }
}

/// Every token that is left, as it stands.
#[derive(Debug)]
struct Raw(Vec<JsonToken>);

impl Parse for Raw {
    type Token = JsonToken;

    fn start() -> StartTokens<JsonKind> {
        StartTokens::All
    }

    fn parse<S: Parser<JsonToken>>(parser: &mut S) -> Result<Self, Error> {
        let mut tokens = Vec::new();
        while !parser.is_empty() {
            tokens.push(parser.next()?);
        }
        Ok(Raw(tokens))
    }
}

fn parser_of(source: &'static str) -> SkipWhitespace<CharsLexer, JsonToken> {
    SkipWhitespace::new(CharsLexer::new(source, SourcePath::Generated))
}

#[test]
fn object_with_a_nested_object() {
    let source = r#"{"k"="v","n"={"k2"="v2"}}"#;
    let mut parser = parser_of(source);
    let object: Object = parse(&mut parser).unwrap();
    assert!(parser.is_empty());

    let entries = &object.0.content;
    assert_eq!(entries.values.len(), 2);
    assert_eq!(entries.punctuation.len(), 1);
    assert_eq!(entries.values[0].key.string, "k");
    assert_eq!(entries.values[0].equal.0.offset, 4);
    match &entries.values[0].value {
        Value::Str(lit) => assert_eq!(lit.string, "v"),
        other => panic!("expected a string, found {:?}", other),
    }
    assert_eq!(entries.values[1].key.string, "n");
    match &entries.values[1].value {
        Value::Object(nested) => {
            assert_eq!(nested.0.content.values.len(), 1);
            assert_eq!(nested.0.content.values[0].key.string, "k2");
            match &nested.0.content.values[0].value {
                Value::Str(lit) => assert_eq!(lit.string, "v2"),
                other => panic!("expected a string, found {:?}", other),
            }
            assert_eq!(nested.span().offset, 13);
            assert_eq!(nested.span().length, 11);
        },
        other => panic!("expected an object, found {:?}", other),
    }

    let span = object.span();
    assert_eq!(span.offset, 0);
    assert_eq!(span.length, source.chars().count());
    assert_eq!(span.line, 0);
    assert_eq!(span.column, 0);
}

#[test]
fn nested_delimiters_are_balanced() {
    let mut parser = parser_of("{ { } }");
    let region: Delimited<OpenBrace, Raw, CloseBrace> = parse(&mut parser).unwrap();
    assert_eq!(region.content.0, vec![JsonToken::OpenBrace, JsonToken::CloseBrace]);
    assert_eq!(region.left.0.offset, 0);
    assert_eq!(region.right.0.offset, 6);
    assert!(parser.is_empty());
}

#[test]
fn nested_region_is_parsed_again_as_a_region() {
    let mut parser = parser_of("{ { } } {");
    let region: Delimited<OpenBrace, Delimited<OpenBrace, Raw, CloseBrace>, CloseBrace> =
        parse(&mut parser).unwrap();
    assert!(region.content.content.0.is_empty());
    assert_eq!(region.content.left.0.offset, 2);
    assert_eq!(region.content.right.0.offset, 4);
    assert_eq!(parser.next().unwrap(), JsonToken::OpenBrace);
    assert!(parser.is_empty());
}

#[test]
fn region_that_is_never_closed_is_an_unexpected_end() {
    let mut parser = parser_of("{ { }");
    let result: Result<Delimited<OpenBrace, Raw, CloseBrace>, Error> = parse(&mut parser);
    let error = result.unwrap_err();
    assert_eq!(error.kind(), ErrorKind::UnexpectedEof);
    assert_eq!(error.span().unwrap().offset, 5);
}

/// A key, `=`, and a string.
#[derive(Debug)]
struct Pair {
    key: LitStr,
    equal: Equal,
    value: LitStr,
}

impl Parse for Pair {
    type Token = JsonToken;

    fn start() -> StartTokens<JsonKind> {
        LitStr::start()
    }

    fn parse<S: Parser<JsonToken>>(parser: &mut S) -> Result<Self, Error> {
        Ok(Pair { key: parse(parser)?, equal: parse(parser)?, value: parse(parser)? })
    }
}

#[test]
fn missing_value_is_reported_where_it_is_missing() {
    let mut parser = parser_of(r#"{"a"="1","b"=}"#);
    let result: Result<
        Delimited<OpenBrace, Punctuated<Pair, Comma, Nothing<JsonToken>>, CloseBrace>,
        Error,
    > = parse(&mut parser);
    let error = result.unwrap_err();
    assert_eq!(error.kind(), ErrorKind::UnexpectedEof);
    assert_eq!(error.msg(), "unexpected end of input");
    let span = error.span().unwrap();
    assert_eq!(span.offset, 13);
    assert_eq!(span.length, 0);
}

#[test]
fn complete_pairs_are_read() {
    let mut parser = parser_of(r#"{"a"="1","b"="2"}"#);
    let region: Delimited<OpenBrace, Punctuated<Pair, Comma, Nothing<JsonToken>>, CloseBrace> =
        parse(&mut parser).unwrap();
    assert_eq!(region.content.values.len(), 2);
    assert_eq!(region.content.values[1].key.string, "b");
    assert_eq!(region.content.values[1].equal.0.offset, 12);
    assert_eq!(region.content.values[1].value.string, "2");
}

#[test]
fn missing_alternative_names_the_end_of_the_input() {
    let mut parser = parser_of(r#"{"a"="1","b"=}"#);
    let result: Result<Object, Error> = parse(&mut parser);
    let error = result.unwrap_err();
    assert_eq!(error.kind(), ErrorKind::ExpectedOne);
    assert_eq!(error.span().unwrap().offset, 13);
    assert_eq!(error.hints()[0].msg(), "found 'eof'");
}

#[test]
fn wrong_token_lists_what_was_expected() {
    let mut parser = parser_of(r#""a" = ,"#);
    let result: Result<Entry, Error> = parse(&mut parser);
    let error = result.unwrap_err();
    assert_eq!(error.kind(), ErrorKind::ExpectedOne);
    assert_eq!(error.msg(), "expected one of 'LitStr, OpenBrace'");
    assert_eq!(error.span().unwrap().offset, 6);
    assert_eq!(error.hints().len(), 1);
    assert_eq!(error.hints()[0].msg(), "found 'Comma'");
}

#[test]
fn try_parse_rules_out_by_one_token() {
    let mut parser = parser_of(r#"= "x""#);
    let absent: Option<LitStr> = try_parse(&mut parser).unwrap();
    assert!(absent.is_none());
    assert_eq!(parser.span(0).offset, 0);
    let present: Option<Equal> = try_parse(&mut parser).unwrap();
    assert!(present.is_some());
    let lit: Option<LitStr> = try_parse(&mut parser).unwrap();
    assert_eq!(lit.unwrap().string, "x");
    assert!(parser.is_empty());
}

#[test]
fn try_parse_commits_a_speculative_success() {
    let mut parser = parser_of("{ } =");
    let raw: Option<Delimited<OpenBrace, Raw, CloseBrace>> = try_parse(&mut parser).unwrap();
    assert!(raw.is_some());
    assert_eq!(parser.next().unwrap(), JsonToken::Equal);
}

#[test]
fn failed_speculation_leaves_the_parser_where_it_was() {
    // `Raw` starts with anything, so a region of it is tried on a fork.
    struct Doomed;
    impl Parse for Doomed {
        type Token = JsonToken;

        fn start() -> StartTokens<JsonKind> {
            StartTokens::All
        }

        fn parse<S: Parser<JsonToken>>(parser: &mut S) -> Result<Self, Error> {
            parser.next()?;
            parser.next()?;
            Err(Error::spanned(parser.span(0), "never"))
        }
    }
    let mut parser = parser_of(r#"{ "a" = }"#);
    let before = parser.span(0);
    let peeked = parser.peek().unwrap().cloned();
    let tried: Option<Doomed> = try_parse(&mut parser).unwrap();
    assert!(tried.is_none());
    assert_eq!(parser.span(0), before);
    assert_eq!(parser.peek().unwrap().cloned(), peeked);
    assert_eq!(parser.next().unwrap(), JsonToken::OpenBrace);
    match parser.next().unwrap() {
        JsonToken::LitStr(lit) => assert_eq!(lit.string, "a"),
        other => panic!("expected a string, found {:?}", other),
    }
    assert_eq!(parser.next().unwrap(), JsonToken::Equal);
    assert_eq!(parser.next().unwrap(), JsonToken::CloseBrace);
    assert!(parser.next().is_err());
}

#[test]
fn fork_reads_on_without_moving_the_parser() {
    let mut parser = parser_of(r#"= , "x""#);
    assert_eq!(parser.peek().unwrap(), Some(&JsonToken::Equal));
    let mut fork = parser.fork();
    assert_eq!(fork.next().unwrap(), JsonToken::Equal);
    assert_eq!(fork.next().unwrap(), JsonToken::Comma);
    assert_eq!(parser.span(0).offset, 0);
    assert_eq!(parser.next().unwrap(), JsonToken::Equal);
    assert_eq!(parser.span(0).offset, 2);
}

#[test]
fn what_cannot_be_lexed_is_an_error_and_not_the_end() {
    let mut parser = parser_of("= ?");
    assert_eq!(parser.next().unwrap(), JsonToken::Equal);
    assert!(!parser.is_empty());
    assert!(parser.peek().is_err());
    assert!(parser.next().is_err());
    assert_eq!(parser.span(0).offset, 2);
}

fn first_kind(source: &'static str) -> Option<JsonKind> {
    parser_of(source).peek().unwrap().map(|token| token.kind())
}

fn starts_as_declared<P: Parse<Token = JsonToken>>(source: &'static str) -> bool {
    let mut parser = parser_of(source);
    let before = parser.span(0).offset;
    match parse::<P, _>(&mut parser) {
        Ok(_) if parser.span(0).offset > before => {
            P::start().contains(&first_kind(source).unwrap())
        },
        _ => true,
    }
}

#[test]
fn start_sets_contain_the_first_token_of_what_parses() {
    let sources = [
        r#"{"k"="v","n"={"k2"="v2"}}"#,
        r#""k"="v""#,
        r#""k""#,
        "=",
        ",",
        "{}",
        "}",
        "",
        r#"{"a"="#,
    ];
    for source in sources {
        assert!(starts_as_declared::<Object>(source));
        assert!(starts_as_declared::<Value>(source));
        assert!(starts_as_declared::<Entry>(source));
        assert!(starts_as_declared::<Pair>(source));
        assert!(starts_as_declared::<LitStr>(source));
        assert!(starts_as_declared::<OpenBrace>(source));
        assert!(starts_as_declared::<CloseBrace>(source));
        assert!(starts_as_declared::<Equal>(source));
        assert!(starts_as_declared::<Comma>(source));
        assert!(starts_as_declared::<Entries>(source));
        assert!(starts_as_declared::<Raw>(source));
        assert!(starts_as_declared::<Delimited<OpenBrace, Raw, CloseBrace>>(source));
    }
    assert!(Object::start().contains(&JsonKind::OpenBrace));
    assert!(!Object::start().contains(&JsonKind::LitStr));
    assert_eq!(Value::start().to_vec(), vec![JsonKind::LitStr, JsonKind::OpenBrace]);
    assert_eq!(is_next::<Value, _>(&mut parser_of("=")), Some(false));
    assert_eq!(is_next::<Value, _>(&mut parser_of("{")), Some(true));
    assert_eq!(is_next::<Raw, _>(&mut parser_of("{")), None);
    assert_eq!(is_next::<Value, _>(&mut parser_of("")), None);
}

