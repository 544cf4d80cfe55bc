//! Integers in binary, decimal and hexadecimal notation.

use crate::error::{Error, ErrorKind};
use crate::stream::{lemma_skip, Stream};
use crate::token::{Lex, Lexer};
use vstd::prelude::*;

verus! {

/// The notation in which an [`Integer`] was written.
#[derive(Clone, Copy, Debug, PartialEq, Eq, PartialOrd, Ord, Hash, Structural)]
pub enum IntegerFormat {
    Binary,
    Decimal,
    Hex,
}

/// An integer, and how it was written.
#[derive(Clone, Copy, Debug, PartialEq, Eq, PartialOrd, Ord, Hash, Structural)]
pub struct Integer {
    pub format: IntegerFormat,
    pub value: i64,
}

impl IntegerFormat {
    /// The base of the notation.
    pub open spec fn radix(self) -> nat {
        match self {
            IntegerFormat::Binary => 2,
            IntegerFormat::Decimal => 10,
            IntegerFormat::Hex => 16,
        }
    }
}

/// The value of `c` as a digit in `format`, or `None` where it is no digit
/// of that notation.
pub open spec fn digit_value(c: char, format: IntegerFormat) -> Option<nat> {
    let n = c as u32;
    let d: nat = if 0x30 <= n <= 0x39 {
        (n - 0x30) as nat
    } else if 0x61 <= n <= 0x66 {
        (n - 0x61 + 10) as nat
    } else if 0x41 <= n <= 0x46 {
        (n - 0x41 + 10) as nat
    } else {
        16
    };
    if d < format.radix() {
        Some(d)
    } else {
        None
    }
}

/// What has been read of an integer.
pub struct Scan {
    /// A prefix has set the notation.
    pub radix_set: bool,
    /// The notation.
    pub format: IntegerFormat,
    /// At least one digit has been read since the prefix, if there was one.
    pub any: bool,
    /// The digits read so far are one `0`.
    pub just_zero: bool,
    /// The value of the digits read so far.
    pub value: nat,
}

/// Nothing has been read.
pub open spec fn scan_start() -> Scan {
    Scan {
        radix_set: false,
        format: IntegerFormat::Decimal,
        any: false,
        just_zero: false,
        value: 0,
    }
}

/// Reads `c`: `b` or `x` after a single `0` sets the notation, once, and
/// starts the digits anew; a digit of the notation is added to the value; any
/// other character is passed over.
pub open spec fn scan_step(st: Scan, c: char) -> Scan {
    if st.just_zero && c == 'b' && !st.radix_set {
        Scan {
            radix_set: true,
            format: IntegerFormat::Binary,
            any: false,
            just_zero: false,
            value: 0,
        }
    } else if st.just_zero && c == 'x' && !st.radix_set {
        Scan { radix_set: true, format: IntegerFormat::Hex, any: false, just_zero: false, value: 0 }
    } else {
        match digit_value(c, st.format) {
            Some(d) => Scan {
                any: true,
                just_zero: !st.any && c == '0',
                value: st.value * st.format.radix() + d,
                ..st
            },
            None => st,
        }
    }
}

/// What has been read after the first `n` of `units`.
pub open spec fn scan(units: Seq<char>, n: int) -> Scan
    decreases n,
{
    if n <= 0 {
        scan_start()
    } else {
        scan_step(scan(units, n - 1), units[n - 1])
    }
}

/// The value of `c` as a digit in `format`.
fn digit(c: char, format: IntegerFormat) -> (d: Option<u64>)
    ensures
        d is Some <==> digit_value(c, format) is Some,
        d matches Some(v) ==> v == digit_value(c, format)->0 && v < 16,
{
    let n = c as u32;
    let d: u64 = if 0x30 <= n && n <= 0x39 {
        (n - 0x30) as u64
    } else if 0x61 <= n && n <= 0x66 {
        (n - 0x61 + 10) as u64
    } else if 0x41 <= n && n <= 0x46 {
        (n - 0x41 + 10) as u64
    } else {
        16
    };
    let radix: u64 = match format {
        IntegerFormat::Binary => 2,
        IntegerFormat::Decimal => 10,
        IntegerFormat::Hex => 16,
    };
    if d < radix {
        Some(d)
    } else {
        None
    }
}

impl Lex<char> for Integer {
    /// An integer takes all of the input, which has to hold at least one
    /// digit and a value that an `i64` can hold.
    open spec fn lex_len(input: Stream<char>) -> Option<nat> {
        let st = scan(input.units, input.units.len() as int);
        if st.any && st.value <= i64::MAX {
            Some(input.units.len())
        } else {
            None
        }
    }

    open spec fn lex_value(input: Stream<char>, value: Integer) -> bool {
        let st = scan(input.units, input.units.len() as int);
        value.format == st.format && value.value == st.value
    }

    /// Reads to the end of the input. The error is a message about the span
    /// of everything that was read.
    #[inline]
    fn lex<L: Lexer<Output = char>>(lexer: &mut L) -> (r: Result<Integer, Error>)
        ensures
            final(lexer).stream() == old(lexer).stream().skip(old(lexer).stream().len() as int),
            r matches Err(e) ==> ({
                let input = old(lexer).stream();
                let st = scan(input.units, input.units.len() as int);
                &&& e@.kind == ErrorKind::Message
                &&& e@.span == Some(input.here().merge(input.mark(input.len() as int)))
                &&& e@.message == if st.any {
                    "integer does not fit in 64 bits"@
                } else {
                    "integers must contain at least one digit"@
                }
            }),
    {
        let ghost input = lexer.stream();
        proof {
            lexer.lemma_inv();
            lemma_skip(input, 0, 0);
        }
        let span = lexer.span(0);
        let mut radix_set = false;
        let mut format = IntegerFormat::Decimal;
        let mut any = false;
        let mut just_zero = false;
        let mut overflow = false;
        let mut value: u64 = 0;
        let ghost mut k: int = 0;
        loop
            invariant
                lexer.inv(),
                input.wf(),
                input == old(lexer).stream(),
                0 <= k <= input.len(),
                lexer.stream() == input.skip(k),
                radix_set == scan(input.units, k).radix_set,
                format == scan(input.units, k).format,
                any == scan(input.units, k).any,
                just_zero == scan(input.units, k).just_zero,
                !any ==> scan(input.units, k).value == 0 && !overflow && !just_zero,
                just_zero ==> scan(input.units, k).value == 0,
                !overflow ==> value == scan(input.units, k).value && value <= i64::MAX,
                overflow ==> scan(input.units, k).value > i64::MAX,
            ensures
                lexer.inv(),
                k == input.len(),
                lexer.stream() == input.skip(k),
                format == scan(input.units, k).format,
                any == scan(input.units, k).any,
                !overflow ==> value == scan(input.units, k).value && value <= i64::MAX,
                overflow ==> scan(input.units, k).value > i64::MAX,
            decreases input.len() - k,
        {
            proof {
                lemma_skip(input, k, 0);
                if k < input.len() {
                    lemma_skip(input, k, 1);
                }
            }
            let c = match lexer.next() {
                Some(c) => c,
                None => {
                    break;
                },
            };
            let ghost st = scan(input.units, k);
            assert(input.skip(k).units[0] == input.units[k]);
            if just_zero && c == 'b' && !radix_set {
                radix_set = true;
                format = IntegerFormat::Binary;
                any = false;
                just_zero = false;
                overflow = false;
                value = 0;
            } else if just_zero && c == 'x' && !radix_set {
                radix_set = true;
                format = IntegerFormat::Hex;
                any = false;
                just_zero = false;
                overflow = false;
                value = 0;
            } else {
                match digit(c, format) {
                    Some(d) => {
                        just_zero = !any && c == '0';
                        any = true;
                        if !overflow {
                            let wide: u128 = match format {
                                IntegerFormat::Binary => value as u128 * 2 + d as u128,
                                IntegerFormat::Decimal => value as u128 * 10 + d as u128,
                                IntegerFormat::Hex => value as u128 * 16 + d as u128,
                            };
                            if wide > 0x7fff_ffff_ffff_ffff {
                                overflow = true;
                            } else {
                                value = wide as u64;
                            }
                        } else {
                            assert(st.value * st.format.radix() >= st.value) by (nonlinear_arith)
                                requires
                                    st.format.radix() >= 1,
                            ;
                        }
                    },
                    None => {},
                }
            }
            proof {
                k = k + 1;
            }
        }
        let end = lexer.span(0);
        if !any {
            Err(Error::spanned(span.merged(end), "integers must contain at least one digit"))
        } else if overflow {
            Err(Error::spanned(span.merged(end), "integer does not fit in 64 bits"))
        } else {
            Ok(Integer { format, value: value as i64 })
        }
    }
}

} // verus!
