//! Roll targets: what a table entry or a matching-roll arm answers to.
use crate::error::CrawlError;
use crate::text::{chars_of, decimal_i32, find_char, first_index, parse_decimal};
use vstd::prelude::*;

verus! {

/// An exact value, an inclusive range, or an open lower bound.
#[derive(Clone, Copy, Debug, PartialEq, Eq)]
pub enum RollTarget {
    Num(i32),
    NumRange(i32, i32),
    OverOrEqual(i32),
}

/// The target that `s` spells: `N`, `N-M` or `N+`, each number written in
/// decimal digits and fitting in an `i32`.
pub open spec fn roll_target_of(s: Seq<char>) -> Option<RollTarget> {
    let k = first_index(s, '-');
    if k < s.len() {
        match (decimal_i32(s.take(k)), decimal_i32(s.skip(k + 1))) {
            (Some(a), Some(b)) => Some(RollTarget::NumRange(a, b)),
            _ => None,
        }
    } else if s.len() > 0 && s.last() == '+' {
        match decimal_i32(s.drop_last()) {
            Some(a) => Some(RollTarget::OverOrEqual(a)),
            None => None,
        }
    } else {
        match decimal_i32(s) {
            Some(a) => Some(RollTarget::Num(a)),
            None => None,
        }
    }
}

impl RollTarget {
    /// Reads a target from text such as `4`, `1-6` or `13+`.
    pub fn parse(value: &str) -> (r: Result<RollTarget, CrawlError>)
        ensures
            r is Ok <==> roll_target_of(value@) is Some,
            r matches Ok(t) ==> roll_target_of(value@) == Some(t),
            r matches Err(e) ==> e.is_interpreter_error(),
    {
        let s = chars_of(value);
        let n = s.len();
        let k = find_char(&s, '-');
        let parsed = if k < n {
            let low = parse_decimal(&s, 0, k);
            let high = parse_decimal(&s, k + 1, n);
            proof {
                assert(s@.subrange(0, k as int) =~= s@.take(k as int));
                assert(s@.subrange(k + 1, n as int) =~= s@.skip(k + 1));
            }
            match (low, high) {
                (Some(a), Some(b)) => Some(RollTarget::NumRange(a, b)),
                _ => None,
            }
        } else if n > 0 && s[n - 1] == '+' {
            proof {
                assert(s@.subrange(0, n - 1) =~= s@.drop_last());
            }
            match parse_decimal(&s, 0, n - 1) {
                Some(a) => Some(RollTarget::OverOrEqual(a)),
                None => None,
            }
        } else {
            proof {
                assert(s@.subrange(0, n as int) =~= s@);
            }
            match parse_decimal(&s, 0, n) {
                Some(a) => Some(RollTarget::Num(a)),
                None => None,
            }
        };
        match parsed {
            Some(t) => Ok(t),
            None => Err(
                CrawlError::InterpreterError {
                    reason: String::from_str("cannot convert text to a roll target"),
                },
            ),
        }
    }
}

impl<'a> TryFrom<&'a str> for RollTarget {
    type Error = CrawlError;

    fn try_from(value: &'a str) -> Result<Self, Self::Error> {
        RollTarget::parse(value)
    }
}

/// The conversion's contract is that of [`RollTarget::parse`].
impl<'a> vstd::std_specs::convert::TryFromSpecImpl<&'a str> for RollTarget {
    open spec fn obeys_try_from_spec() -> bool {
        false
    }

    open spec fn try_from_spec(v: &'a str) -> Result<Self, Self::Error> {
        arbitrary()
    }
}

impl TryFrom<String> for RollTarget {
    type Error = CrawlError;

    fn try_from(value: String) -> Result<Self, Self::Error> {
        RollTarget::parse(value.as_str())
    }
}

/// The conversion's contract is that of [`RollTarget::parse`].
impl vstd::std_specs::convert::TryFromSpecImpl<String> for RollTarget {
    open spec fn obeys_try_from_spec() -> bool {
        false
    }

    open spec fn try_from_spec(v: String) -> Result<Self, Self::Error> {
        arbitrary()
    }
}

} // verus!
