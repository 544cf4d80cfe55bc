use lasagna::{
    lex_exact, skip_whitespace, try_lex, CharsLexer, CharsParser, Error, ErrorKind, Integer,
    IntegerFormat, Lex, Lexer, Parser, SourcePath, StartTokens, TokenKind,
};

fn lexer_of(source: &'static str) -> CharsLexer {
    CharsLexer::new(source, SourcePath::Other("test"))
}

#[test]
fn chars_lexer_tracks_line_column_and_offset() {
    let mut lexer = lexer_of("ab\ncd");
    let start = lexer.span(2);
    assert_eq!((start.line, start.column, start.offset, start.length), (0, 0, 0, 2));
    assert_eq!(start.path, SourcePath::Other("test"));
    assert_eq!(start.source, "ab\ncd");
    assert_eq!(lexer.next(), Some('a'));
    assert_eq!(lexer.next(), Some('b'));
    let end_of_line = lexer.span(0);
    assert_eq!((end_of_line.line, end_of_line.column, end_of_line.offset), (0, 2, 2));
    assert_eq!(lexer.next(), Some('\n'));
    let next_line = lexer.span(0);
    assert_eq!((next_line.line, next_line.column, next_line.offset), (1, 0, 3));
    assert_eq!(lexer.next(), Some('c'));
    assert_eq!(lexer.next(), Some('d'));
    let end = lexer.span(0);
    assert_eq!((end.line, end.column, end.offset), (1, 2, 5));
    assert_eq!(lexer.next(), None);
    assert_eq!(lexer.next(), None);
    assert_eq!(lexer.span(0), end);
}

#[test]
fn chars_lexer_counts_characters_not_bytes() {
    let mut lexer = lexer_of("\u{e9}\u{4e16}z");
    assert_eq!(lexer.next(), Some('\u{e9}'));
    assert_eq!(lexer.span(0).offset, 1);
    assert_eq!(lexer.next(), Some('\u{4e16}'));
    assert_eq!(lexer.span(0).offset, 2);
    assert_eq!(lexer.next(), Some('z'));
    assert!(lexer.is_empty());
}

#[test]
fn peek_does_not_consume() {
    let mut lexer = lexer_of("xy");
    assert_eq!(lexer.peek(), Some(&'x'));
    assert_eq!(lexer.peek(), Some(&'x'));
    assert_eq!(lexer.span(0).offset, 0);
    assert!(!lexer.is_empty());
    lexer.consume();
    assert_eq!(lexer.peek(), Some(&'y'));
    lexer.consume();
    assert_eq!(lexer.peek(), None);
    assert!(lexer.is_empty());
    lexer.consume();
    assert_eq!(lexer.span(0).offset, 2);
}

#[test]
fn empty_source() {
    let mut lexer = lexer_of("");
    assert!(lexer.is_empty());
    assert_eq!(lexer.peek(), None);
    assert_eq!(lexer.next(), None);
    assert_eq!(lexer.span(0).offset, 0);
}

#[test]
fn expect_consumes_the_unit_it_checks() {
    let mut lexer = lexer_of("ab");
    assert!(lexer.expect('a').is_ok());
    let error = lexer.expect('x').unwrap_err();
    assert_eq!(error.kind(), ErrorKind::Expected);
    assert_eq!(error.msg(), "expected 'x'");
    assert_eq!(error.hints()[0].msg(), "found 'b'");
    let span = error.span().unwrap();
    assert_eq!((span.offset, span.length), (1, 1));
    assert!(lexer.is_empty());
    let at_end = lexer.expect('c').unwrap_err();
    assert_eq!(at_end.kind(), ErrorKind::Expected);
    assert_eq!(at_end.hints()[0].msg(), "found 'eof'");
    let span = at_end.span().unwrap();
    assert_eq!((span.offset, span.length), (2, 0));
}

#[test]
fn fork_of_a_lexer_is_independent() {
    let mut lexer = lexer_of("abc");
    lexer.consume();
    let mut fork = lexer.fork();
    assert_eq!(fork.next(), Some('b'));
    assert_eq!(fork.next(), Some('c'));
    assert_eq!(fork.next(), None);
    assert_eq!(lexer.span(0).offset, 1);
    assert_eq!(lexer.next(), Some('b'));
    assert_eq!(fork.span(0).offset, 3);
}

#[test]
fn lex_exact_reads_the_whole_text_or_fails() {
    let mut lexer = lexer_of("let x");
    assert!(lex_exact(&mut lexer, "let").is_ok());
    assert_eq!(lexer.span(0).offset, 3);
    assert!(lex_exact(&mut lexer, "").is_ok());
    assert_eq!(lexer.span(0).offset, 3);

    let mut lexer = lexer_of("lex");
    let error = lex_exact(&mut lexer, "let").unwrap_err();
    assert_eq!(error.kind(), ErrorKind::Expected);
    assert_eq!(error.msg(), "expected 't'");
    assert_eq!(error.span().unwrap().offset, 2);

    let mut lexer = lexer_of("le");
    let error = lex_exact(&mut lexer, "let").unwrap_err();
    assert_eq!(error.hints()[0].msg(), "found 'eof'");
}

#[test]
fn skip_whitespace_stops_at_the_first_other_character() {
    let mut lexer = lexer_of(" \t\r\n\u{a0}\u{2003}x y");
    skip_whitespace(&mut lexer);
    assert_eq!(lexer.span(0).offset, 6);
    assert_eq!(lexer.peek(), Some(&'x'));
    skip_whitespace(&mut lexer);
    assert_eq!(lexer.span(0).offset, 6);
    let mut blank = lexer_of("  ");
    skip_whitespace(&mut blank);
    assert!(blank.is_empty());
}

struct Keyword;

impl Lex<char> for Keyword {
    fn lex<L: Lexer<Output = char>>(lexer: &mut L) -> Result<Self, Error> {
        lex_exact(lexer, "key").map(|_| Keyword)
    }
}

#[test]
fn try_lex_commits_only_what_succeeds() {
    let mut lexer = lexer_of("kex key");
    assert!(try_lex::<char, Keyword, CharsLexer>(&mut lexer).is_none());
    assert_eq!(lexer.span(0).offset, 0);
    assert!(lex_exact(&mut lexer, "kex ").is_ok());
    assert!(try_lex::<char, Keyword, CharsLexer>(&mut lexer).is_some());
    assert_eq!(lexer.span(0).offset, 7);
    assert!(try_lex::<char, Keyword, CharsLexer>(&mut lexer).is_none());
}

#[test]
fn a_character_lexes_as_itself() {
    let mut lexer = lexer_of("q");
    assert_eq!(char::lex(&mut lexer).unwrap(), 'q');
    let error = char::lex(&mut lexer).unwrap_err();
    assert_eq!(error.kind(), ErrorKind::UnexpectedEof);
    assert_eq!('q'.name(), "character");
    assert!('q'.same(&'q'));
    assert!(!'q'.same(&'r'));
}

fn integer(source: &'static str) -> Result<Integer, Error> {
    Integer::lex(&mut lexer_of(source))
}

#[test]
fn integers_in_three_notations() {
    assert_eq!(integer("42").unwrap(), Integer { format: IntegerFormat::Decimal, value: 42 });
    assert_eq!(integer("0").unwrap(), Integer { format: IntegerFormat::Decimal, value: 0 });
    assert_eq!(integer("007").unwrap(), Integer { format: IntegerFormat::Decimal, value: 7 });
    assert_eq!(integer("0b1011").unwrap(), Integer { format: IntegerFormat::Binary, value: 11 });
    assert_eq!(integer("0xfF").unwrap(), Integer { format: IntegerFormat::Hex, value: 255 });
    assert_eq!(integer("0xb").unwrap(), Integer { format: IntegerFormat::Hex, value: 11 });
    assert_eq!(
        integer("9223372036854775807").unwrap(),
        Integer { format: IntegerFormat::Decimal, value: i64::MAX }
    );
    assert_eq!(
        integer("0x7fffffffffffffff").unwrap(),
        Integer { format: IntegerFormat::Hex, value: i64::MAX }
    );
}

#[test]
fn integers_pass_over_what_is_no_digit() {
    assert_eq!(integer("1_000").unwrap().value, 1000);
    assert_eq!(integer("12ab").unwrap().value, 12);
    assert_eq!(integer("0b102").unwrap().value, 2);
    assert_eq!(integer("00x1").unwrap(), Integer { format: IntegerFormat::Decimal, value: 1 });
    assert_eq!(integer("0x0x1").unwrap(), Integer { format: IntegerFormat::Hex, value: 1 });
    let mut lexer = lexer_of("7 8");
    assert_eq!(Integer::lex(&mut lexer).unwrap().value, 78);
    assert!(lexer.is_empty());
}

#[test]
fn integers_need_a_digit_and_a_value_that_fits() {
    let error = integer("").unwrap_err();
    assert_eq!(error.kind(), ErrorKind::Message);
    assert_eq!(error.msg(), "integers must contain at least one digit");
    assert_eq!(integer("xyz").unwrap_err().msg(), "integers must contain at least one digit");
    let prefix_only = integer("0x").unwrap_err();
    assert_eq!(prefix_only.msg(), "integers must contain at least one digit");
    let span = prefix_only.span().unwrap();
    assert_eq!((span.offset, span.length), (0, 2));
    let error = integer("9223372036854775808").unwrap_err();
    assert_eq!(error.msg(), "integer does not fit in 64 bits");
    assert!(integer("0xffffffffffffffffffff").is_err());
}

#[derive(Clone, Copy, Debug, PartialEq, Eq)]
enum Kind {
    A,
    B,
    C,
}

impl TokenKind for Kind {
    fn name(&self) -> &str {
        match self {
            Kind::A => "a",
            Kind::B => "b",
            Kind::C => "c",
        }
    }

    fn same(&self, other: &Self) -> bool {
        self == other
    }
}

#[test]
fn start_tokens_membership() {
    let set = StartTokens::Any(vec![
        StartTokens::Token(Kind::A),
        StartTokens::One(Box::new(StartTokens::Token(Kind::B))),
    ]);
    assert!(set.contains(&Kind::A));
    assert!(set.contains(&Kind::B));
    assert!(!set.contains(&Kind::C));
    assert!(set.names(&Kind::B));
    assert!(!set.catches_all());

    let all: StartTokens<Kind> = StartTokens::All;
    assert!(all.contains(&Kind::C));
    assert!(!all.names(&Kind::C));
    assert!(all.catches_all());

    let nested = StartTokens::Any(vec![StartTokens::Token(Kind::A), StartTokens::All]);
    assert!(nested.contains(&Kind::C));
    assert!(nested.catches_all());
    assert_eq!(nested.to_vec(), vec![Kind::A]);

    let none: StartTokens<Kind> = StartTokens::Any(vec![]);
    assert!(!none.contains(&Kind::A));
    assert!(none.to_vec().is_empty());
}

#[test]
fn start_tokens_flatten_without_duplicates() {
    let set = StartTokens::Any(vec![
        StartTokens::Token(Kind::B),
        StartTokens::Any(vec![StartTokens::Token(Kind::A), StartTokens::Token(Kind::B)]),
        StartTokens::All,
        StartTokens::One(Box::new(StartTokens::Token(Kind::C))),
        StartTokens::Token(Kind::A),
    ]);
    assert_eq!(set.to_vec(), vec![Kind::B, Kind::A, Kind::C]);

    let mut seen = vec![Kind::C];
    set.append_vec(&mut seen);
    assert_eq!(seen, vec![Kind::C, Kind::B, Kind::A]);
    StartTokens::<Kind>::All.append_vec(&mut seen);
    assert_eq!(seen.len(), 3);
}

#[test]
fn chars_parser_hands_out_every_character() {
    let mut parser = CharsParser::new("a b");
    assert_eq!(parser.peek().unwrap(), Some(&'a'));
    assert_eq!(parser.next().unwrap(), 'a');
    assert_eq!(parser.next().unwrap(), ' ');
    assert_eq!(parser.span(0).offset, 2);
    assert_eq!(parser.next().unwrap(), 'b');
    assert!(parser.is_empty());
    assert_eq!(parser.peek().unwrap(), None);
    assert_eq!(parser.next().unwrap_err().kind(), ErrorKind::UnexpectedEof);
}

#[test]
fn chars_parser_can_pass_over_white_space() {
    let mut parser = CharsParser::new(" a \n b  ").skip_whitespace(true);
    assert_eq!(parser.span(0).offset, 1);
    assert_eq!(parser.peek().unwrap(), Some(&'a'));
    assert_eq!(parser.next().unwrap(), 'a');
    let mut fork = parser.fork();
    assert_eq!(fork.next().unwrap(), 'b');
    assert!(fork.is_empty());
    assert!(!parser.is_empty());
    let at = parser.span(0);
    assert_eq!((at.line, at.column, at.offset), (1, 1, 5));
    assert_eq!(parser.next().unwrap(), 'b');
    assert!(parser.is_empty());
    assert_eq!(parser.span(0).offset, 8);
    let mut plain = CharsParser::new(" a").skip_whitespace(true).skip_whitespace(false);
    assert_eq!(plain.next().unwrap(), ' ');
}

fn has_white_space_property(c: char) -> bool {
    let n = c as u32;
    (0x09..=0x0d).contains(&n)
        || n == 0x20
        || n == 0x85
        || n == 0xa0
        || n == 0x1680
        || (0x2000..=0x200a).contains(&n)
        || n == 0x2028
        || n == 0x2029
        || n == 0x202f
        || n == 0x205f
        || n == 0x3000
}

#[test]
fn white_space_is_what_has_the_unicode_property() {
    let mut skipped = 0;
    for code in 0..=0x10ffff_u32 {
        if let Some(c) = char::from_u32(code) {
            assert_eq!(c.is_whitespace(), has_white_space_property(c), "U+{:04X}", code);
            if c.is_whitespace() {
                skipped += 1;
            }
        }
    }
    assert_eq!(skipped, 25);
    let mut lexer = lexer_of("\u{2028}\u{3000}\u{200b}x");
    skip_whitespace(&mut lexer);
    assert_eq!(lexer.next(), Some('\u{200b}'));
}

