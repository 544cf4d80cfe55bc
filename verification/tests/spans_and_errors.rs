use lasagna::{
    static_str, Error, ErrorHint, ErrorKind, ParseError, SourcePath, Span, Spanned,
    StringAllocator, TokenOrMessage,
};

fn span(offset: usize, length: usize, line: usize, column: usize) -> Span {
    Span { path: SourcePath::Generated, source: "source", line, column, offset, length }
}

#[test]
fn merge_covers_both_operands() {
    let a = span(4, 3, 0, 4);
    let b = span(10, 5, 1, 2);
    let merged = a | b;
    assert_eq!(merged.offset, 4);
    assert_eq!(merged.length, 11);
    assert_eq!(merged.line, 0);
    assert_eq!(merged.column, 4);
    assert_eq!(merged.path, SourcePath::Generated);
    assert_eq!(merged.source, "source");
}

#[test]
fn merge_takes_line_and_column_of_the_earlier_operand() {
    let a = span(10, 5, 1, 2);
    let b = span(4, 3, 0, 4);
    let merged = a | b;
    assert_eq!(merged.offset, 4);
    assert_eq!(merged.length, 11);
    assert_eq!(merged.line, 0);
    assert_eq!(merged.column, 4);
}

#[test]
fn merge_breaks_ties_by_the_left_operand() {
    let a = span(4, 1, 7, 7);
    let b = span(4, 9, 8, 8);
    assert_eq!((a | b).line, 7);
    assert_eq!((a | b).column, 7);
    assert_eq!((b | a).line, 8);
    assert_eq!((a | b).length, 9);
}

#[test]
fn merge_of_nested_spans_is_the_outer_span() {
    let outer = span(2, 20, 0, 2);
    let inner = span(5, 3, 0, 5);
    assert_eq!(outer | inner, outer);
    assert_eq!(inner | outer, outer);
}

#[test]
fn merge_covers_the_same_however_it_is_grouped() {
    let a = span(30, 2, 3, 0);
    let b = span(7, 1, 0, 7);
    let c = span(12, 40, 1, 1);
    let left = (a | b) | c;
    let right = a | (b | c);
    let other = (c | a) | b;
    for merged in [left, right, other] {
        assert_eq!(merged.offset, 7);
        assert_eq!(merged.offset + merged.length, 52);
    }
}

#[test]
fn merge_with_changes_the_span_in_place() {
    let mut a = span(4, 3, 0, 4);
    a.merge_with(span(1, 1, 0, 1));
    assert_eq!(a.offset, 1);
    assert_eq!(a.length, 6);
    assert_eq!(a.column, 1);
}

#[test]
fn span_helpers() {
    let start = Span::start_of(SourcePath::Other("memory"), "abc");
    assert_eq!(start.offset, 0);
    assert_eq!(start.length, 0);
    assert_eq!(start.path, SourcePath::Other("memory"));
    assert_eq!(start.with_len(3).length, 3);
    assert_eq!(span(4, 3, 2, 1).span(), span(4, 3, 2, 1));
    assert_eq!(Box::new(span(4, 3, 2, 1)).span(), span(4, 3, 2, 1));
}

#[test]
fn message_errors() {
    let plain = Error::new("broken");
    assert_eq!(plain.kind(), ErrorKind::Message);
    assert_eq!(plain.msg(), "broken");
    assert!(plain.span().is_none());
    assert!(plain.hints().is_empty());
    assert!(plain.source().is_none());

    let placed = Error::spanned(span(3, 1, 0, 3), "broken here");
    assert_eq!(placed.kind(), ErrorKind::Message);
    assert_eq!(placed.msg(), "broken here");
    assert_eq!(placed.span(), Some(span(3, 1, 0, 3)));
}

#[test]
fn expected_error() {
    let error = Error::expected(span(3, 1, 0, 3), "}", "eof");
    assert_eq!(error.kind(), ErrorKind::Expected);
    assert_eq!(error.msg(), "expected '}'");
    assert_eq!(error.span(), Some(span(3, 1, 0, 3)));
    assert_eq!(error.hints().len(), 1);
    assert_eq!(error.hints()[0].msg(), "found 'eof'");
    assert_eq!(error.hints()[0].span(), Some(span(3, 1, 0, 3)));
    assert_eq!(error.hints()[0].spans(), &[span(3, 1, 0, 3)]);
}

#[test]
fn expected_one_error() {
    let error = Error::expected_one(span(0, 0, 0, 0), &["a", "b", "c"], "d");
    assert_eq!(error.kind(), ErrorKind::ExpectedOne);
    assert_eq!(error.msg(), "expected one of 'a, b, c'");
    assert_eq!(error.hints()[0].msg(), "found 'd'");

    let single = Error::expected_one(span(0, 0, 0, 0), &["a"], "d");
    assert_eq!(single.msg(), "expected one of 'a'");
    let none = Error::expected_one(span(0, 0, 0, 0), &[], "d");
    assert_eq!(none.msg(), "expected one of ''");
}

#[test]
fn unexpected_eof_error() {
    let error = Error::unexpected_eof(span(9, 0, 1, 0));
    assert_eq!(error.kind(), ErrorKind::UnexpectedEof);
    assert_eq!(error.msg(), "unexpected end of input");
    assert_eq!(error.span(), Some(span(9, 0, 1, 0)));
    assert!(error.hints().is_empty());
}

#[test]
fn hints_are_kept_in_the_order_they_were_added() {
    let mut error = Error::new("outer").with_hint(ErrorHint::new("first"));
    error.add_hint(ErrorHint::spanned(span(1, 1, 0, 1), "second"));
    let error = error.with_hint(ErrorHint::new("third"));
    let hints: Vec<&str> = error.hints().iter().map(|hint| hint.msg()).collect();
    assert_eq!(hints, vec!["first", "second", "third"]);
    assert_eq!(error.msg(), "outer");
    assert!(error.hints()[0].span().is_none());
    assert!(error.hints()[0].spans().is_empty());
    assert!(error.hints()[0].source().is_none());
    assert_eq!(error.hints()[1].span(), Some(span(1, 1, 0, 1)));
    assert_eq!(error.render(), "outer\nfirst\nsecond\nthird\n");
}

#[test]
fn errors_chain_to_their_cause() {
    let cause = Error::spanned(span(2, 1, 0, 2), "inner");
    let error = Error::new("outer").with_source(cause);
    assert_eq!(error.msg(), "outer");
    let source = error.source().unwrap();
    assert_eq!(source.msg(), "inner");
    assert_eq!(source.span(), Some(span(2, 1, 0, 2)));
    assert_eq!(Error::new("alone").render(), "alone\n");
}

#[test]
fn interning_gives_back_the_same_text() {
    let mut allocator = StringAllocator::new();
    let owned = String::from("some text");
    let first = allocator.intern(&owned);
    drop(owned);
    assert_eq!(first, "some text");
    let second = static_str(&mut allocator, &String::from("some text"));
    assert_eq!(second, "some text");
    assert!(std::ptr::eq(first, second));
    let other = static_str(&mut allocator, "other");
    assert_eq!(other, "other");
    assert!(!std::ptr::eq(first, other));
    let fresh = StringAllocator::default().intern("some text");
    assert!(!std::ptr::eq(first, fresh));
}

#[test]
fn source_paths_are_interned() {
    let mut allocator = StringAllocator::new();
    let text = String::from("src/main.lang");
    let path = SourcePath::path(&mut allocator, &text);
    assert_eq!(path, SourcePath::Path("src/main.lang"));
    assert_eq!(path, SourcePath::path(&mut allocator, "src/main.lang"));
    assert_ne!(path, SourcePath::Generated);
    assert_ne!(path, SourcePath::Other("src/main.lang"));
}

#[derive(Clone, Copy, Debug, PartialEq, Eq)]
struct Mark;

impl lasagna::TokenKind for Mark {
    fn name(&self) -> &str {
        "mark"
    }

    fn same(&self, _other: &Self) -> bool {
        true
    }
}

#[derive(Clone, Debug, PartialEq, Eq)]
struct MarkToken;

impl lasagna::Lex<char> for MarkToken {
    fn lex<L: lasagna::Lexer<Output = char>>(lexer: &mut L) -> Result<Self, Error> {
        lexer.expect('!').map(|_| MarkToken)
    }
}

impl lasagna::Token<char> for MarkToken {
    type Kind = Mark;

    fn kind(&self) -> Mark {
        Mark
    }
}

#[test]
fn string_errors() {
    let found: String = ParseError::<MarkToken>::expected(
        Some(MarkToken),
        TokenOrMessage::from_str("a digit"),
    );
    assert_eq!(found, "found 'mark', expected 'a digit'");
    let at_end: String = ParseError::<MarkToken>::expected(None, TokenOrMessage::from(MarkToken));
    assert_eq!(at_end, "found 'eof', expected 'mark'");
    let one: String = ParseError::<MarkToken>::expected_one(
        None,
        &[TokenOrMessage::from_str("a digit"), TokenOrMessage::Token(MarkToken)],
    );
    assert_eq!(one, "found 'eof', expected 'a digit, mark'");
    let eof: String = ParseError::<MarkToken>::unexpected_eof();
    assert_eq!(eof, "unexpected eof");
    let message: String = ParseError::<MarkToken>::message("broken");
    assert_eq!(message, "broken");
    assert_eq!(TokenOrMessage::<MarkToken>::from_str("words").text(), "words");
    assert_eq!(TokenOrMessage::Token(MarkToken).text(), "mark");
}
