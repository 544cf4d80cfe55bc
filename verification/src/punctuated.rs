//! Elements with punctuation between them, up to the end of the input.

use crate::error::Error;
use crate::parser::{Nothing, Parse, Parser, StartSet, StartTokens};
use crate::stream::Stream;
use crate::token::Token;
use crate::vec::{punctuated_items, punctuated_len};
use vstd::prelude::*;

verus! {

/// A list of `T` with a `P` between each two of them, which runs to the end
/// of the input. Punctuation after the last element is accepted.
#[derive(Debug)]
pub struct Punctuated<T, P> {
    pub values: Vec<T>,
    pub punctuation: Vec<P>,
}

impl<T, P> Punctuated<T, P> {
    /// The elements of the list, without the punctuation.
    pub fn into_values(self) -> (values: Vec<T>)
        ensures
            values == self.values,
    {
        self.values
    }
}

impl<T: Parse, P: Parse<Token = T::Token>> Parse for Punctuated<T, P> {
    type Token = T::Token;

    open spec fn start_spec() -> StartSet<<T::Token as Token>::Kind> {
        T::start_spec()
    }

    open spec fn parse_len(input: Stream<T::Token>) -> Option<nat> {
        match punctuated_len::<T, P, Nothing<T::Token>>(input) {
            Some((m, _, _)) => Some(m),
            None => None,
        }
    }

    open spec fn parse_value(input: Stream<T::Token>, value: Self) -> bool {
        punctuated_items::<T, P, Nothing<T::Token>>(input, value.values@, value.punctuation@)
    }

    fn start() -> (s: StartTokens<<T::Token as Token>::Kind>) {
        T::start()
    }

    fn parse<S: Parser<T::Token>>(parser: &mut S) -> (r: Result<Self, Error>) {
        match crate::vec::Punctuated::<T, P, Nothing<T::Token>>::parse(parser) {
            Ok(list) => Ok(Punctuated { values: list.values, punctuation: list.punctuation }),
            Err(e) => Err(e),
        }
    }
}

} // verus!
