//! Lists of productions: one after another up to a terminator, with or
//! without punctuation between them.
//!
//! The terminator is looked for on a fork and is never consumed: after a list
//! has been parsed, the parser stands in front of the terminator that ended
//! it. A list also ends where the input does.

use crate::error::Error;
use crate::parser::{Nothing, Parse, Parser, StartSet, StartTokens};
use crate::span::{Span, Spanned};
use crate::stream::{lemma_skip, Stream};
use crate::token::{lawful, Token};
use vstd::prelude::*;

verus! {

/// A list stops in front of `input`: nothing is left, or a `Term` is next.
pub open spec fn stops<Term: Parse>(input: Stream<Term::Token>) -> bool {
    input.is_empty() || Term::parse_len(input) is Some
}

/// Whether a `X` can be parsed in front of the parser, found out on a fork:
/// nothing is consumed.
pub fn occurs<X: Parse, S: Parser<X::Token>>(parser: &mut S) -> (r: Option<X>)
    requires
        old(parser).inv(),
        lawful::<X::Token>(),
    ensures
        final(parser).inv(),
        final(parser).stream() == old(parser).stream(),
        r is Some <==> X::parse_len(old(parser).stream()) is Some,
        r matches Some(value) ==> X::parse_value(old(parser).stream(), value),
{
    let mut fork = parser.fork();
    match X::parse(&mut fork) {
        Ok(value) => Some(value),
        Err(_) => None,
    }
}

/// Looks for the end of a list without consuming anything: `Some(None)` at
/// the end of the input, `Some(Some(term))` where a terminator is next, and
/// `None` where the list goes on.
pub fn at_stop<Term: Parse, S: Parser<Term::Token>>(parser: &mut S) -> (r: Option<Option<Term>>)
    requires
        old(parser).inv(),
        lawful::<Term::Token>(),
    ensures
        final(parser).inv(),
        final(parser).stream() == old(parser).stream(),
        r is Some <==> stops::<Term>(old(parser).stream()),
        r matches Some(found) ==> (found is None <==> old(parser).stream().is_empty()),
        r matches Some(Some(term)) ==> Term::parse_value(old(parser).stream(), term),
{
    if parser.is_empty() {
        return Some(None);
    }
    match occurs::<Term, S>(parser) {
        Some(term) => Some(Some(term)),
        None => None,
    }
}

/// The number of tokens that one element of a list consumes in front of
/// `input`: what `T` consumes, which has to be at least one token.
pub open spec fn element_len<T: Parse>(input: Stream<T::Token>) -> Option<nat> {
    match T::parse_len(input) {
        Some(n) => if 0 < n <= input.len() {
            Some(n)
        } else {
            None
        },
        None => None,
    }
}

/// Parses a `T` that has to consume input: an element that consumes nothing
/// is an error, since a list of such elements would never end. That error is
/// a message about the position of the parser.
pub fn parse_element<T: Parse, S: Parser<T::Token>>(parser: &mut S) -> (r: Result<T, Error>)
    requires
        old(parser).inv(),
        lawful::<T::Token>(),
    ensures
        final(parser).inv(),
        match element_len::<T>(old(parser).stream()) {
            Some(n) => final(parser).stream() == old(parser).stream().skip(n as int) && (
            r matches Ok(v) && T::parse_value(old(parser).stream(), v))
                && T::start_spec().contains(old(parser).stream().units[0].kind_spec()),
            None => r matches Err(e) && e@.span is Some,
        },
        T::parse_len(old(parser).stream()) == Some(0nat) ==> final(parser).stream() == old(
            parser,
        ).stream() && (r matches Err(e) && e@.kind == crate::error::ErrorKind::Message && e@.span
            == Some(old(parser).stream().here()) && e@.message
            == "an element of a list must consume input"@),
{
    let ghost input = parser.stream();
    proof {
        parser.lemma_inv();
        lemma_skip(input, 0, 0);
    }
    let before = parser.span(0);
    match T::parse(parser) {
        Ok(value) => {
            proof {
                lemma_skip(input, T::parse_len(input)->0 as int, 0);
            }
            let after = parser.span(0);
            if after.offset == before.offset {
                Err(Error::spanned(before, "an element of a list must consume input"))
            } else {
                Ok(value)
            }
        },
        Err(e) => Err(e),
    }
}

/// How far a list of `T` up to a `Term` reads in `input`, and how many
/// elements it holds; `None` where an element fails.
pub open spec fn list_len<T: Parse, Term: Parse<Token = T::Token>>(
    input: Stream<T::Token>,
) -> Option<(nat, nat)>
    decreases input.len(),
{
    if stops::<Term>(input) {
        Some((0, 0))
    } else {
        match element_len::<T>(input) {
            Some(n) => match list_len::<T, Term>(input.skip(n as int)) {
                Some((m, c)) => Some((n + m, c + 1)),
                None => None,
            },
            None => None,
        }
    }
}

/// `items` are the elements of the list in `input`, in order.
pub open spec fn list_items<T: Parse, Term: Parse<Token = T::Token>>(
    input: Stream<T::Token>,
    items: Seq<T>,
) -> bool
    decreases input.len(),
{
    if stops::<Term>(input) {
        items.len() == 0
    } else {
        match element_len::<T>(input) {
            Some(n) => items.len() > 0 && T::parse_value(input, items[0]) && list_items::<
                T,
                Term,
            >(input.skip(n as int), items.skip(1)),
            None => false,
        }
    }
}

/// A list that reads `m` tokens and holds `c` elements after `k` tokens and
/// `done` elements have been read.
pub open spec fn list_after(rest: Option<(nat, nat)>, k: nat, done: nat) -> Option<(nat, nat)> {
    match rest {
        Some((m, c)) => Some((k + m, done + c)),
        None => None,
    }
}

/// Whatever completes the list from `cur` on completes, after `items`, the
/// list from `start` on.
#[verifier::opaque]
pub open spec fn list_extends<T: Parse, Term: Parse<Token = T::Token>>(
    start: Stream<T::Token>,
    cur: Stream<T::Token>,
    items: Seq<T>,
) -> bool {
    forall|rest: Seq<T>| #[trigger]
        list_items::<T, Term>(cur, rest) ==> list_items::<T, Term>(start, items + rest)
}

/// A list that has not begun extends itself.
pub proof fn lemma_list_start<T: Parse, Term: Parse<Token = T::Token>>(start: Stream<T::Token>)
    ensures
        list_extends::<T, Term>(start, start, Seq::empty()),
{
    reveal(list_extends);
    assert forall|rest: Seq<T>| #[trigger] list_items::<T, Term>(start, rest) implies list_items::<
        T,
        Term,
    >(start, Seq::<T>::empty() + rest) by {
        assert(Seq::<T>::empty() + rest =~= rest);
    }
}

/// At a stop, what has been read is the list.
pub proof fn lemma_list_stop<T: Parse, Term: Parse<Token = T::Token>>(
    start: Stream<T::Token>,
    cur: Stream<T::Token>,
    items: Seq<T>,
)
    requires
        list_extends::<T, Term>(start, cur, items),
        stops::<Term>(cur),
    ensures
        list_items::<T, Term>(start, items),
        list_len::<T, Term>(cur) == Some((0nat, 0nat)),
{
    reveal(list_extends);
    assert(list_items::<T, Term>(cur, Seq::<T>::empty()));
    assert(items + Seq::<T>::empty() =~= items);
}

/// One element more extends the list by that element.
pub proof fn lemma_list_more<T: Parse, Term: Parse<Token = T::Token>>(
    start: Stream<T::Token>,
    cur: Stream<T::Token>,
    items: Seq<T>,
    value: T,
    n: nat,
)
    requires
        list_extends::<T, Term>(start, cur, items),
        !stops::<Term>(cur),
        element_len::<T>(cur) == Some(n),
        T::parse_value(cur, value),
    ensures
        list_extends::<T, Term>(start, cur.skip(n as int), items.push(value)),
        list_len::<T, Term>(cur) == list_after(list_len::<T, Term>(cur.skip(n as int)), n, 1),
{
    reveal(list_extends);
    assert forall|rest: Seq<T>| #[trigger]
        list_items::<T, Term>(cur.skip(n as int), rest) implies list_items::<T, Term>(
        start,
        items.push(value) + rest,
    ) by {
        let more = seq![value] + rest;
        assert(more.skip(1) =~= rest);
        assert(list_items::<T, Term>(cur, more));
        assert(items + more =~= items.push(value) + rest);
    }
}

/// Parsable [`Vec`] that is terminated by a production.
///
/// # Note
/// The terminator is not consumed.
#[derive(Debug)]
pub struct VecTerminated<T, Term> {
    /// From the start of the list to the terminator.
    pub span: Span,
    pub vec: Vec<T>,
    pub termination: Option<Term>,
}

impl<T, Term> Spanned for VecTerminated<T, Term> {
    open spec fn span_spec(&self) -> Span {
        self.span
    }

    #[inline]
    fn span(&self) -> (s: Span)
        ensures
            s == self.span,
    {
        self.span
    }
}

impl<T: Parse, Term: Parse<Token = T::Token>> Parse for VecTerminated<T, Term> {
    type Token = T::Token;

    open spec fn start_spec() -> StartSet<<T::Token as Token>::Kind> {
        T::start_spec()
    }

    open spec fn parse_len(input: Stream<T::Token>) -> Option<nat> {
        match list_len::<T, Term>(input) {
            Some((m, _)) => Some(m),
            None => None,
        }
    }

    open spec fn parse_value(input: Stream<T::Token>, value: Self) -> bool {
        let end = input.skip(Self::parse_len(input)->0 as int);
        &&& list_items::<T, Term>(input, value.vec@)
        &&& value.span == input.here().merge(end.here())
        &&& value.termination is Some <==> !end.is_empty()
        &&& value.termination matches Some(term) ==> Term::parse_value(end, term)
    }

    fn start() -> (s: StartTokens<<T::Token as Token>::Kind>) {
        T::start()
    }

    fn parse<S: Parser<T::Token>>(parser: &mut S) -> (r: Result<Self, Error>) {
        let ghost start = parser.stream();
        proof {
            parser.lemma_inv();
            lemma_skip(start, 0, 0);
            lemma_list_start::<T, Term>(start);
        }
        let span = parser.span(0);
        let mut vec: Vec<T> = Vec::new();
        let mut termination: Option<Term> = None;
        let ghost mut k: nat = 0;
        loop
            invariant_except_break
                list_len::<T, Term>(start) == list_after(
                    list_len::<T, Term>(start.skip(k as int)),
                    k,
                    vec@.len(),
                ),
                list_extends::<T, Term>(start, start.skip(k as int), vec@),
            invariant
                parser.inv(),
                lawful::<T::Token>(),
                start.wf(),
                start == old(parser).stream(),
                k <= start.len(),
                parser.stream() == start.skip(k as int),
                k > 0 ==> T::start_spec().contains(start.units[0].kind_spec()),
            ensures
                parser.inv(),
                k <= start.len(),
                parser.stream() == start.skip(k as int),
                list_len::<T, Term>(start) == Some((k, vec@.len())),
                list_items::<T, Term>(start, vec@),
                termination is Some <==> !start.skip(k as int).is_empty(),
                termination matches Some(term) ==> Term::parse_value(start.skip(k as int), term),
                k > 0 ==> T::start_spec().contains(start.units[0].kind_spec()),
            decreases start.len() - k,
        {
            let ghost cur = start.skip(k as int);
            let ghost had = vec@;
            proof {
                lemma_skip(start, k as int, 0);
            }
            match at_stop::<Term, S>(parser) {
                Some(found) => {
                    termination = found;
                    proof {
                        lemma_list_stop::<T, Term>(start, cur, had);
                    }
                    break;
                },
                None => {},
            }
            let value = match parse_element::<T, S>(parser) {
                Ok(value) => value,
                Err(e) => {
                    return Err(e);
                },
            };
            let ghost n = element_len::<T>(cur)->0;
            vec.push(value);
            proof {
                lemma_skip(start, k as int, n as int);
                lemma_list_more::<T, Term>(start, cur, had, value, n);
                k = k + n;
            }
        }
        proof {
            lemma_skip(start, k as int, 0);
        }
        let end = parser.span(0);
        Ok(VecTerminated { span: span.merged(end), vec, termination })
    }
}

/// How far a punctuated list reads in `input`, and how many elements and
/// punctuation marks it holds; `None` where an element or a mark fails.
pub open spec fn punctuated_len<T: Parse, P: Parse<Token = T::Token>, Term: Parse<Token = T::Token>>(
    input: Stream<T::Token>,
) -> Option<(nat, nat, nat)>
    decreases input.len(),
{
    if stops::<Term>(input) {
        Some((0, 0, 0))
    } else {
        match element_len::<T>(input) {
            Some(n) => {
                let after = input.skip(n as int);
                if stops::<Term>(after) {
                    Some((n, 1, 0))
                } else {
                    match P::parse_len(after) {
                        Some(p) => if p <= after.len() {
                            match punctuated_len::<T, P, Term>(after.skip(p as int)) {
                                Some((m, c, q)) => Some((n + p + m, c + 1, q + 1)),
                                None => None,
                            }
                        } else {
                            None
                        },
                        None => None,
                    }
                }
            },
            None => None,
        }
    }
}

/// `values` and `marks` are the elements and the punctuation of the list in
/// `input`, each in order.
pub open spec fn punctuated_items<
    T: Parse,
    P: Parse<Token = T::Token>,
    Term: Parse<Token = T::Token>,
>(input: Stream<T::Token>, values: Seq<T>, marks: Seq<P>) -> bool
    decreases input.len(),
{
    if stops::<Term>(input) {
        values.len() == 0 && marks.len() == 0
    } else {
        match element_len::<T>(input) {
            Some(n) => {
                let after = input.skip(n as int);
                values.len() > 0 && T::parse_value(input, values[0]) && if stops::<Term>(after) {
                    values.len() == 1 && marks.len() == 0
                } else {
                    match P::parse_len(after) {
                        Some(p) => p <= after.len() && marks.len() > 0 && P::parse_value(
                            after,
                            marks[0],
                        ) && punctuated_items::<T, P, Term>(
                            after.skip(p as int),
                            values.skip(1),
                            marks.skip(1),
                        ),
                        None => false,
                    }
                }
            },
            None => false,
        }
    }
}

/// A punctuated list that reads `m` tokens more, after `k` tokens, `done`
/// elements and `marked` punctuation marks.
pub open spec fn punctuated_after(
    rest: Option<(nat, nat, nat)>,
    k: nat,
    done: nat,
    marked: nat,
) -> Option<(nat, nat, nat)> {
    match rest {
        Some((m, c, q)) => Some((k + m, done + c, marked + q)),
        None => None,
    }
}

/// Whatever completes the list from `cur` on completes, after `values` and
/// `marks`, the list from `start` on.
#[verifier::opaque]
pub open spec fn punctuated_extends<
    T: Parse,
    P: Parse<Token = T::Token>,
    Term: Parse<Token = T::Token>,
>(start: Stream<T::Token>, cur: Stream<T::Token>, values: Seq<T>, marks: Seq<P>) -> bool {
    forall|more: Seq<T>, ms: Seq<P>| #[trigger]
        punctuated_items::<T, P, Term>(cur, more, ms) ==> punctuated_items::<T, P, Term>(
            start,
            values + more,
            marks + ms,
        )
}

/// A list that has not begun extends itself.
proof fn lemma_extends_start<T: Parse, P: Parse<Token = T::Token>, Term: Parse<Token = T::Token>>(
    start: Stream<T::Token>,
)
    ensures
        punctuated_extends::<T, P, Term>(start, start, Seq::empty(), Seq::empty()),
{
    reveal(punctuated_extends);
    assert forall|more: Seq<T>, ms: Seq<P>| #[trigger]
        punctuated_items::<T, P, Term>(start, more, ms) implies punctuated_items::<T, P, Term>(
        start,
        Seq::<T>::empty() + more,
        Seq::<P>::empty() + ms,
    ) by {
        assert(Seq::<T>::empty() + more =~= more);
        assert(Seq::<P>::empty() + ms =~= ms);
    }
}

/// At a stop, what has been read is the list.
proof fn lemma_extends_stop<T: Parse, P: Parse<Token = T::Token>, Term: Parse<Token = T::Token>>(
    start: Stream<T::Token>,
    cur: Stream<T::Token>,
    values: Seq<T>,
    marks: Seq<P>,
)
    requires
        punctuated_extends::<T, P, Term>(start, cur, values, marks),
        stops::<Term>(cur),
    ensures
        punctuated_items::<T, P, Term>(start, values, marks),
        punctuated_len::<T, P, Term>(cur) == Some((0nat, 0nat, 0nat)),
{
    reveal(punctuated_extends);
    assert(punctuated_items::<T, P, Term>(cur, Seq::<T>::empty(), Seq::<P>::empty()));
    assert(values + Seq::<T>::empty() =~= values);
    assert(marks + Seq::<P>::empty() =~= marks);
}

/// An element in front of a stop is the last of the list.
proof fn lemma_extends_last<T: Parse, P: Parse<Token = T::Token>, Term: Parse<Token = T::Token>>(
    start: Stream<T::Token>,
    cur: Stream<T::Token>,
    values: Seq<T>,
    marks: Seq<P>,
    value: T,
    n: nat,
)
    requires
        punctuated_extends::<T, P, Term>(start, cur, values, marks),
        !stops::<Term>(cur),
        element_len::<T>(cur) == Some(n),
        T::parse_value(cur, value),
        stops::<Term>(cur.skip(n as int)),
    ensures
        punctuated_items::<T, P, Term>(start, values.push(value), marks),
        punctuated_len::<T, P, Term>(cur) == Some((n, 1nat, 0nat)),
{
    reveal(punctuated_extends);
    let more = seq![value];
    assert(punctuated_items::<T, P, Term>(cur, more, Seq::<P>::empty()));
    assert(values + more =~= values.push(value));
    assert(marks + Seq::<P>::empty() =~= marks);
}

/// An element and the punctuation after it extend the list by both.
proof fn lemma_extends_more<T: Parse, P: Parse<Token = T::Token>, Term: Parse<Token = T::Token>>(
    start: Stream<T::Token>,
    cur: Stream<T::Token>,
    values: Seq<T>,
    marks: Seq<P>,
    value: T,
    n: nat,
    mark: P,
    p: nat,
)
    requires
        punctuated_extends::<T, P, Term>(start, cur, values, marks),
        !stops::<Term>(cur),
        element_len::<T>(cur) == Some(n),
        T::parse_value(cur, value),
        !stops::<Term>(cur.skip(n as int)),
        P::parse_len(cur.skip(n as int)) == Some(p),
        p <= cur.skip(n as int).len(),
        P::parse_value(cur.skip(n as int), mark),
    ensures
        punctuated_extends::<T, P, Term>(
            start,
            cur.skip(n as int).skip(p as int),
            values.push(value),
            marks.push(mark),
        ),
        punctuated_len::<T, P, Term>(cur) == punctuated_after(
            punctuated_len::<T, P, Term>(cur.skip(n as int).skip(p as int)),
            n + p,
            1,
            1,
        ),
{
    reveal(punctuated_extends);
    let next = cur.skip(n as int).skip(p as int);
    assert forall|more: Seq<T>, ms: Seq<P>| #[trigger]
        punctuated_items::<T, P, Term>(next, more, ms) implies punctuated_items::<T, P, Term>(
        start,
        values.push(value) + more,
        marks.push(mark) + ms,
    ) by {
        let all = seq![value] + more;
        let all_marks = seq![mark] + ms;
        assert(all.skip(1) =~= more);
        assert(all_marks.skip(1) =~= ms);
        assert(punctuated_items::<T, P, Term>(cur, all, all_marks));
        assert(values + all =~= values.push(value) + more);
        assert(marks + all_marks =~= marks.push(mark) + ms);
    }
}

/// Elements with punctuation between them, up to a terminator. Punctuation
/// after the last element is accepted.
///
/// # Note
/// The terminator is not consumed.
#[derive(Debug)]
pub struct Punctuated<T, P, Term> {
    /// From the start of the list to the terminator.
    pub span: Span,
    pub values: Vec<T>,
    pub punctuation: Vec<P>,
    pub termination: Option<Term>,
}

impl<T, P, Term> Spanned for Punctuated<T, P, Term> {
    open spec fn span_spec(&self) -> Span {
        self.span
    }

    #[inline]
    fn span(&self) -> (s: Span)
        ensures
            s == self.span,
    {
        self.span
    }
}

impl<T: Parse, P: Parse<Token = T::Token>, Term: Parse<Token = T::Token>> Parse for Punctuated<
    T,
    P,
    Term,
> {
    type Token = T::Token;

    open spec fn start_spec() -> StartSet<<T::Token as Token>::Kind> {
        T::start_spec()
    }

    open spec fn parse_len(input: Stream<T::Token>) -> Option<nat> {
        match punctuated_len::<T, P, Term>(input) {
            Some((m, _, _)) => Some(m),
            None => None,
        }
    }

    open spec fn parse_value(input: Stream<T::Token>, value: Self) -> bool {
        let end = input.skip(Self::parse_len(input)->0 as int);
        &&& punctuated_items::<T, P, Term>(input, value.values@, value.punctuation@)
        &&& value.span == input.here().merge(end.here())
        &&& value.termination is Some <==> !end.is_empty()
        &&& value.termination matches Some(term) ==> Term::parse_value(end, term)
    }

    fn start() -> (s: StartTokens<<T::Token as Token>::Kind>) {
        T::start()
    }

    fn parse<S: Parser<T::Token>>(parser: &mut S) -> (r: Result<Self, Error>) {
        let ghost start = parser.stream();
        proof {
            parser.lemma_inv();
            lemma_skip(start, 0, 0);
            lemma_extends_start::<T, P, Term>(start);
        }
        let span = parser.span(0);
        let mut values: Vec<T> = Vec::new();
        let mut punctuation: Vec<P> = Vec::new();
        let mut termination: Option<Term> = None;
        let ghost mut k: nat = 0;
        loop
            invariant_except_break
                punctuated_len::<T, P, Term>(start) == punctuated_after(
                    punctuated_len::<T, P, Term>(start.skip(k as int)),
                    k,
                    values@.len(),
                    punctuation@.len(),
                ),
                punctuated_extends::<T, P, Term>(
                    start,
                    start.skip(k as int),
                    values@,
                    punctuation@,
                ),
            invariant
                parser.inv(),
                lawful::<T::Token>(),
                start.wf(),
                start == old(parser).stream(),
                k <= start.len(),
                parser.stream() == start.skip(k as int),
                k > 0 ==> T::start_spec().contains(start.units[0].kind_spec()),
            ensures
                parser.inv(),
                k <= start.len(),
                parser.stream() == start.skip(k as int),
                punctuated_len::<T, P, Term>(start) == Some(
                    (k, values@.len(), punctuation@.len()),
                ),
                punctuated_items::<T, P, Term>(start, values@, punctuation@),
                termination is Some <==> !start.skip(k as int).is_empty(),
                termination matches Some(term) ==> Term::parse_value(start.skip(k as int), term),
                k > 0 ==> T::start_spec().contains(start.units[0].kind_spec()),
            decreases start.len() - k,
        {
            let ghost cur = start.skip(k as int);
            let ghost had = values@;
            let ghost marked = punctuation@;
            proof {
                lemma_skip(start, k as int, 0);
            }
            match at_stop::<Term, S>(parser) {
                Some(found) => {
                    termination = found;
                    proof {
                        lemma_extends_stop::<T, P, Term>(start, cur, had, marked);
                    }
                    break;
                },
                None => {},
            }
            let value = match parse_element::<T, S>(parser) {
                Ok(value) => value,
                Err(e) => {
                    return Err(e);
                },
            };
            let ghost n = element_len::<T>(cur)->0;
            let ghost after = cur.skip(n as int);
            values.push(value);
            proof {
                lemma_skip(start, k as int, n as int);
                lemma_skip(cur, n as int, 0);
            }
            match at_stop::<Term, S>(parser) {
                Some(found) => {
                    termination = found;
                    proof {
                        lemma_extends_last::<T, P, Term>(start, cur, had, marked, value, n);
                        k = k + n;
                    }
                    break;
                },
                None => {},
            }
            let mark = match P::parse(parser) {
                Ok(mark) => mark,
                Err(e) => {
                    return Err(e);
                },
            };
            let ghost p = P::parse_len(after)->0;
            punctuation.push(mark);
            proof {
                lemma_skip(start, (k + n) as int, p as int);
                lemma_extends_more::<T, P, Term>(start, cur, had, marked, value, n, mark, p);
                k = k + n + p;
            }
        }
        proof {
            lemma_skip(start, k as int, 0);
        }
        let end = parser.span(0);
        Ok(Punctuated { span: span.merged(end), values, punctuation, termination })
    }
}

impl<T: Parse> Parse for Vec<T> {
    type Token = T::Token;

    open spec fn start_spec() -> StartSet<<T::Token as Token>::Kind> {
        T::start_spec()
    }

    open spec fn parse_len(input: Stream<T::Token>) -> Option<nat> {
        match list_len::<T, Nothing<T::Token>>(input) {
            Some((m, _)) => Some(m),
            None => None,
        }
    }

    open spec fn parse_value(input: Stream<T::Token>, value: Vec<T>) -> bool {
        list_items::<T, Nothing<T::Token>>(input, value@)
    }

    fn start() -> (s: StartTokens<<T::Token as Token>::Kind>) {
        T::start()
    }

    /// One `T` after another, to the end of the input.
    fn parse<S: Parser<T::Token>>(parser: &mut S) -> (r: Result<Vec<T>, Error>) {
        match VecTerminated::<T, Nothing<T::Token>>::parse(parser) {
            Ok(list) => Ok(list.vec),
            Err(e) => Err(e),
        }
    }
}

} // verus!
