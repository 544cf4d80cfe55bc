//! A region between a left and a right delimiter, found by counting nested
//! delimiters, and parsed on its own once its end is known.

use crate::error::Error;
use crate::parse_buffer::{lemma_buffer_inv, ParseBuffer};
use crate::parser::{Parse, Parser, StartSet, StartTokens};
use crate::stream::{lemma_skip, lemma_take, Stream};
use crate::token::{lawful, Token};
use crate::vec::{element_len, occurs, parse_element};
use vstd::prelude::*;

verus! {

/// `found` tokens further on.
pub open spec fn further(found: Option<nat>, by: nat) -> Option<nat> {
    match found {
        Some(k) => Some(k + by),
        None => None,
    }
}

/// The number of tokens in front of the right delimiter that closes a region
/// which is `depth` delimiters deep at the front of `input`; `None` where the
/// input ends before the region does.
///
/// Token by token, a left delimiter makes the region one deeper and a right
/// delimiter one less deep; the right delimiter at depth one closes it. A
/// token at which both delimiters can be parsed counts as a left one.
pub open spec fn close_at<L: Parse, R: Parse<Token = L::Token>>(
    input: Stream<L::Token>,
    depth: nat,
) -> Option<nat>
    decreases input.len(),
{
    if input.len() == 0 {
        None
    } else if L::parse_len(input) is Some {
        further(close_at::<L, R>(input.skip(1), depth + 1), 1)
    } else if R::parse_len(input) is Some {
        if depth <= 1 {
            Some(0)
        } else {
            further(close_at::<L, R>(input.skip(1), (depth - 1) as nat), 1)
        }
    } else {
        further(close_at::<L, R>(input.skip(1), depth), 1)
    }
}

/// What lies between a left and a right delimiter.
#[derive(Debug)]
pub struct Delimited<L, T, R> {
    pub left: L,
    pub content: T,
    pub right: R,
}

impl<L: Parse, T: Parse<Token = L::Token>, R: Parse<Token = L::Token>> Delimited<L, T, R> {
    /// The tokens between the delimiters of the region at the front of
    /// `input`, as a stream of their own that ends at the right delimiter.
    pub open spec fn body(input: Stream<L::Token>) -> Stream<L::Token> {
        let inner = input.skip(element_len::<L>(input)->0 as int);
        inner.take(close_at::<L, R>(inner, 1)->0 as int)
    }

    /// The input from the right delimiter on.
    pub open spec fn closing(input: Stream<L::Token>) -> Stream<L::Token> {
        let inner = input.skip(element_len::<L>(input)->0 as int);
        inner.skip(close_at::<L, R>(inner, 1)->0 as int)
    }

    /// A region stands at the front of `input`: a left delimiter of at least
    /// one token, and a right delimiter that closes it.
    pub open spec fn delimited(input: Stream<L::Token>) -> bool {
        element_len::<L>(input) is Some && close_at::<L, R>(
            input.skip(element_len::<L>(input)->0 as int),
            1,
        ) is Some
    }
}

impl<L: Parse, T: Parse<Token = L::Token>, R: Parse<Token = L::Token>> Parse for Delimited<
    L,
    T,
    R,
> {
    type Token = L::Token;

    open spec fn start_spec() -> StartSet<<L::Token as Token>::Kind> {
        L::start_spec()
    }

    open spec fn parse_len(input: Stream<L::Token>) -> Option<nat> {
        if Self::delimited(input) && T::parse_len(Self::body(input)) is Some {
            Some(
                element_len::<L>(input)->0 + Self::body(input).len() + R::parse_len(
                    Self::closing(input),
                )->0,
            )
        } else {
            None
        }
    }

    open spec fn parse_value(input: Stream<L::Token>, value: Self) -> bool {
        &&& L::parse_value(input, value.left)
        &&& T::parse_value(Self::body(input), value.content)
        &&& R::parse_value(Self::closing(input), value.right)
    }

    fn start() -> (s: StartTokens<<L::Token as Token>::Kind>) {
        L::start()
    }

    /// A region that is opened and never closed is an `UnexpectedEof` at the
    /// end of the input.
    fn parse<S: Parser<L::Token>>(parser: &mut S) -> (r: Result<Self, Error>)
        ensures
            element_len::<L>(old(parser).stream()) is Some && close_at::<L, R>(
                old(parser).stream().skip(element_len::<L>(old(parser).stream())->0 as int),
                1,
            ) is None && old(parser).stream().clean ==> (r matches Err(e) && e@.kind
                == crate::error::ErrorKind::UnexpectedEof && e@.span == Some(
                old(parser).stream().marks.last(),
            )),
    {
        let ghost input = parser.stream();
        proof {
            parser.lemma_inv();
        }
        let left = match parse_element::<L, S>(parser) {
            Ok(left) => left,
            Err(e) => {
                return Err(e);
            },
        };
        let ghost l = element_len::<L>(input)->0;
        let ghost inner = input.skip(l as int);
        proof {
            lemma_skip(input, l as int, 0);
            lemma_take(inner, 0);
        }
        // Collect the tokens up to the right delimiter that closes the region.
        let at = parser.span(0);
        let mut content: ParseBuffer<L::Token> = ParseBuffer::starting_at(at);
        let mut depth: usize = 1;
        let ghost mut i: nat = 0;
        assert(content.content().units =~= inner.take(0).units);
        assert(content.content().marks =~= inner.take(0).marks);
        loop
            invariant
                parser.inv(),
                lawful::<L::Token>(),
                input == old(parser).stream(),
                input.wf(),
                element_len::<L>(input) == Some(l),
                inner == input.skip(l as int),
                inner.wf(),
                i <= inner.len(),
                parser.stream() == inner.skip(i as int),
                content.content() == inner.take(i as int),
                1 <= depth <= i + 1,
                close_at::<L, R>(inner, 1) == further(
                    close_at::<L, R>(inner.skip(i as int), depth as nat),
                    i,
                ),
            ensures
                parser.inv(),
                i <= inner.len(),
                parser.stream() == inner.skip(i as int),
                content.content() == inner.take(i as int),
                close_at::<L, R>(inner, 1) == Some(i),
                R::parse_len(inner.skip(i as int)) is Some,
            decreases inner.len() - i,
        {
            let ghost cur = inner.skip(i as int);
            proof {
                lemma_skip(inner, i as int, 0);
                lemma_take(inner, i as int);
                if i < inner.len() {
                    lemma_skip(inner, i as int, 1);
                    lemma_take(inner, (i + 1) as int);
                }
            }
            let more = match parser.peek() {
                Ok(Some(_)) => true,
                _ => false,
            };
            let opens = more && occurs::<L, S>(parser).is_some();
            let closes = more && !opens && occurs::<R, S>(parser).is_some();
            if closes && depth == 1 {
                break;
            }
            let token = match parser.next() {
                Ok(token) => token,
                Err(e) => {
                    proof {
                        assert(i == inner.len());
                        assert(cur.here() == inner.marks[i as int]);
                        assert(inner.marks[i as int] == input.marks[(l + i) as int]);
                        assert(input.marks.len() == input.units.len() + 1);
                    }
                    return Err(e);
                },
            };
            let end = parser.span(0);
            content.push_until(token, end);
            proof {
                assert(content.content().units =~= inner.take((i + 1) as int).units);
                assert(content.content().marks =~= inner.take((i + 1) as int).marks);
                i = i + 1;
            }
            // The region is never deeper than the number of tokens held, so the
            // depth cannot overflow.
            let held = content.len();
            assert(depth <= held);
            if opens {
                depth = depth + 1;
            } else if closes {
                depth = depth - 1;
            }
        }
        // The parser stands in front of the closing delimiter, which parses.
        let right = match R::parse(parser) {
            Ok(right) => right,
            Err(e) => {
                return Err(e);
            },
        };
        proof {
            lemma_take(inner, i as int);
            lemma_buffer_inv(content);
            lemma_skip(inner, i as int, 0);
            lemma_skip(input, l as int, i as int);
            lemma_skip(input, (l + i) as int, R::parse_len(inner.skip(i as int))->0 as int);
        }
        // What was collected is parsed on its own.
        let value = match T::parse(&mut content) {
            Ok(value) => value,
            Err(e) => {
                return Err(e);
            },
        };
        Ok(Delimited { left, content: value, right })
    }
}

} // verus!
