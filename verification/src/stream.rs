//! The mathematical model of an input: the units that are still to be read,
//! and the position in the source before and after each of them.

use crate::span::Span;
use vstd::prelude::*;

verus! {

/// What a lexer or a parser has in front of it.
///
/// `units` are the values that successive reads will return. `marks[i]` is the
/// position, as a span of no length, at which unit `i` starts; the last mark is
/// the position at which reading stops. `clean` says that reading stops there
/// because the input is exhausted, and not because what follows cannot be read
/// as a unit.
pub struct Stream<U> {
    pub units: Seq<U>,
    pub marks: Seq<Span>,
    pub clean: bool,
}

impl<U> Stream<U> {
    /// One mark more than units, all marks of no length in one document, at
    /// strictly growing offsets.
    pub open spec fn wf(self) -> bool {
        &&& self.marks.len() == self.units.len() + 1
        &&& forall|i: int|
            0 <= i < self.marks.len() ==> (#[trigger] self.marks[i]).length == 0
                && self.marks[i].same_source(self.marks[0])
        &&& forall|i: int, j: int|
            0 <= i < j < self.marks.len() ==> (#[trigger] self.marks[i]).offset
                < (#[trigger] self.marks[j]).offset
    }

    /// The number of units left.
    pub open spec fn len(self) -> nat {
        self.units.len()
    }

    /// The position of the next unit, or of the end.
    pub open spec fn here(self) -> Span {
        self.marks[0]
    }

    /// The position after `n` units.
    pub open spec fn mark(self, n: int) -> Span {
        self.marks[n]
    }

    /// Nothing is left, and the end is the end of the input.
    pub open spec fn is_empty(self) -> bool {
        self.units.len() == 0 && self.clean
    }

    /// The stream after `n` units have been read.
    pub open spec fn skip(self, n: int) -> Stream<U> {
        Stream { units: self.units.skip(n), marks: self.marks.skip(n), clean: self.clean }
    }

    /// The first `n` units alone, ending cleanly before unit `n`.
    pub open spec fn take(self, n: int) -> Stream<U> {
        Stream { units: self.units.take(n), marks: self.marks.take(n + 1), clean: true }
    }

    /// The span from the start of unit `i` to the start of what follows it.
    pub open spec fn unit_span(self, i: int) -> Span {
        self.marks[i].with_length((self.marks[i + 1].offset - self.marks[i].offset) as usize)
    }
}

/// Reading on keeps a stream well formed, and reading in two steps is reading
/// in one.
pub proof fn lemma_skip<U>(s: Stream<U>, n: int, m: int)
    requires
        s.wf(),
        0 <= n,
        0 <= m,
        n + m <= s.units.len(),
    ensures
        s.skip(n).wf(),
        s.skip(n).units.len() == s.units.len() - n,
        s.skip(n).here() == s.mark(n),
        s.skip(n).here().same_source(s.here()),
        s.skip(n).skip(m) == s.skip(n + m),
        s.skip(0) == s,
        n > 0 ==> s.here().offset < s.skip(n).here().offset,
        s.skip(n).here().offset == s.here().offset ==> n == 0,
{
    let t = s.skip(n);
    assert forall|i: int| 0 <= i < t.marks.len() implies (#[trigger] t.marks[i]).length == 0
        && t.marks[i].same_source(t.marks[0]) by {
        assert(t.marks[i] == s.marks[i + n]);
        assert(t.marks[0] == s.marks[n]);
    }
    assert forall|i: int, j: int| 0 <= i < j < t.marks.len() implies (#[trigger] t.marks[i]).offset
        < (#[trigger] t.marks[j]).offset by {
        assert(t.marks[i] == s.marks[i + n]);
        assert(t.marks[j] == s.marks[j + n]);
    }
    assert(s.skip(n).skip(m).units =~= s.skip(n + m).units);
    assert(s.skip(n).skip(m).marks =~= s.skip(n + m).marks);
    assert(s.skip(0).units =~= s.units);
    assert(s.skip(0).marks =~= s.marks);
    assert(t.marks[0] == s.marks[n]);
    if n > 0 {
        assert(s.marks[0].offset < s.marks[n].offset);
    }
}

/// A prefix of a well-formed stream is well formed.
pub proof fn lemma_take<U>(s: Stream<U>, n: int)
    requires
        s.wf(),
        0 <= n <= s.units.len(),
    ensures
        s.take(n).wf(),
        s.take(n).units.len() == n,
        s.take(n).here() == s.here(),
        s.take(n).mark(n) == s.mark(n),
{
}

/// The stream that holds `unit`, which starts at `at`, and then `rest`.
pub open spec fn prepend<U>(unit: U, at: Span, rest: Stream<U>) -> Stream<U> {
    Stream { units: seq![unit] + rest.units, marks: seq![at] + rest.marks, clean: rest.clean }
}

/// The stream that ends at `at`.
pub open spec fn ended<U>(at: Span, clean: bool) -> Stream<U> {
    Stream { units: Seq::empty(), marks: seq![at], clean }
}

/// `rest`, after the unit that has been looked at, if there is one.
pub open spec fn with_peek<U>(peek: Option<(U, Span)>, rest: Stream<U>) -> Stream<U> {
    match peek {
        Some(found) => prepend(found.0, found.1, rest),
        None => rest,
    }
}

/// The same stream, taken to end cleanly.
pub open spec fn cleaned<U>(s: Stream<U>) -> Stream<U> {
    Stream { clean: true, ..s }
}

/// A unit in front of a well-formed stream, at a position before it in the
/// same document, makes a well-formed stream.
pub proof fn lemma_prepend<U>(unit: U, at: Span, rest: Stream<U>)
    requires
        rest.wf(),
        at.length == 0,
        at.same_source(rest.here()),
        at.offset < rest.here().offset,
    ensures
        prepend(unit, at, rest).wf(),
        prepend(unit, at, rest).skip(1) == rest,
        prepend(unit, at, rest).here() == at,
        prepend(unit, at, rest).len() == rest.len() + 1,
        prepend(unit, at, rest).units[0] == unit,
{
    let out = prepend(unit, at, rest);
    assert forall|i: int| 0 <= i < out.marks.len() implies (#[trigger] out.marks[i]).length == 0
        && out.marks[i].same_source(out.marks[0]) by {
        if i > 0 {
            assert(out.marks[i] == rest.marks[i - 1]);
            assert(rest.marks[i - 1].same_source(rest.marks[0]));
        }
    }
    assert forall|i: int, j: int| 0 <= i < j < out.marks.len() implies (#[trigger] out.marks[i]).offset
        < (#[trigger] out.marks[j]).offset by {
        assert(out.marks[j] == rest.marks[j - 1]);
        if i > 0 {
            assert(out.marks[i] == rest.marks[i - 1]);
        } else if j > 1 {
            assert(rest.marks[0].offset < rest.marks[j - 1].offset);
        }
    }
    assert(out.skip(1).units =~= rest.units);
    assert(out.skip(1).marks =~= rest.marks);
}

/// The units of one level of a grammar, read from the units of the level
/// below.
///
/// `len_of` says how many units of the input the next unit of the output
/// takes, and `value_of` what it is. The output ends where the input does,
/// where no unit can be read, or where one would take no input; only the
/// first of these is a clean end. Each unit starts where its first input unit
/// does.
pub open spec fn regroup<I, O>(
    input: Stream<I>,
    len_of: spec_fn(Stream<I>) -> Option<nat>,
    value_of: spec_fn(Stream<I>) -> O,
) -> Stream<O>
    decreases input.units.len(),
{
    match len_of(input) {
        Some(n) => if 0 < n <= input.units.len() {
            prepend(
                value_of(input),
                input.here(),
                regroup(input.skip(n as int), len_of, value_of),
            )
        } else {
            ended(input.here(), input.is_empty())
        },
        None => ended(input.here(), input.is_empty()),
    }
}

/// The next unit of the output can be read: it takes at least one unit of the
/// input.
pub open spec fn regroups<I>(input: Stream<I>, len_of: spec_fn(Stream<I>) -> Option<nat>) -> bool {
    len_of(input) matches Some(n) && 0 < n <= input.units.len()
}

/// Regrouping a well-formed stream gives a well-formed stream, which starts
/// where the input starts and is exhausted when the input is.
pub proof fn lemma_regroup<I, O>(
    input: Stream<I>,
    len_of: spec_fn(Stream<I>) -> Option<nat>,
    value_of: spec_fn(Stream<I>) -> O,
)
    requires
        input.wf(),
    ensures
        regroup(input, len_of, value_of).wf(),
        regroup(input, len_of, value_of).here() == input.here(),
        regroup(input, len_of, value_of).is_empty() <==> input.is_empty(),
        regroup(input, len_of, value_of).len() > 0 <==> regroups(input, len_of),
        regroups(input, len_of) ==> regroup(input, len_of, value_of) == prepend(
            value_of(input),
            input.here(),
            regroup(input.skip(len_of(input)->0 as int), len_of, value_of),
        ) && input.here().offset < regroup(
            input.skip(len_of(input)->0 as int),
            len_of,
            value_of,
        ).here().offset && input.here().same_source(
            regroup(input.skip(len_of(input)->0 as int), len_of, value_of).here(),
        ),
    decreases input.units.len(),
{
    lemma_skip(input, 0, 0);
    if regroups(input, len_of) {
        let n = len_of(input)->0;
        let after = input.skip(n as int);
        lemma_skip(input, n as int, 0);
        lemma_regroup(after, len_of, value_of);
        lemma_prepend(value_of(input), input.here(), regroup(after, len_of, value_of));
    }
}

} // verus!
