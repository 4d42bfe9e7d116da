//! The value of a `CSeq` header: a sequence number and a method token.

use crate::parser::common::sip_chars::{lemma_run_end, run_end, scan, CharClass};
use crate::parser::SipParseError;
use crate::text::{decimal_value, parse_decimal, to_chars};
use crate::SipError;
use vstd::prelude::*;
use vstd::string::StrSliceExecFns;
use vstd::string::StringExecFns;

verus! {

/// A parsed `CSeq` value.
#[derive(Debug, Clone, PartialEq, Eq)]
pub struct CSeq {
    /// The sequence number.
    pub number: u32,
    /// The method token behind the number; may be empty.
    pub method: String,
}

/// The number and the method token that a `CSeq` value holds, if it is one.
///
/// The number is the longest run of digits at the front; there must be one
/// digit at least, and the number must fit in 32 bits. Blanks may follow.
/// The method is the longest run of ASCII letters and digits after them.
pub open spec fn cseq_parts(value: Seq<char>) -> Option<(nat, Seq<char>)> {
    let number_end = run_end(value, 0, CharClass::Digit);
    let number = decimal_value(value.subrange(0, number_end));
    if number_end == 0 || number > u32::MAX {
        None
    } else {
        let method_start = run_end(value, number_end, CharClass::Blank);
        let method_end = run_end(value, method_start, CharClass::Alphanumeric);
        Some((number, value.subrange(method_start, method_end)))
    }
}

impl CSeq {
    /// Splits a `CSeq` value into its number and its method token.
    ///
    /// Fails with `MissingOrInvalidCseq` exactly when the value does not
    /// start with a digit or its number does not fit in 32 bits.
    pub fn parse(cseq: &str) -> (r: Result<(u32, &str), SipError>)
        ensures
            match r {
                Ok(p) => cseq_parts(cseq@) == Some((p.0 as nat, p.1@)),
                Err(e) => e == SipError::MissingOrInvalidCseq && cseq_parts(cseq@) is None,
            },
    {
        let chars = to_chars(cseq);
        let number_end = scan(&chars, 0, CharClass::Digit);
        if number_end == 0 {
            return Err(SipError::MissingOrInvalidCseq);
        }
        match parse_decimal(&chars, 0, number_end, u32::MAX) {
            None => {
                proof {
                    let digits = chars@.subrange(0, number_end as int);
                    lemma_run_end(chars@, 0, CharClass::Digit, number_end as int);
                    assert forall|i: int| 0 <= i < digits.len() implies CharClass::Digit.holds(
                        #[trigger] digits[i],
                    ) by {
                        assert(digits[i] == chars@[i]);
                    }
                }
                Err(SipError::MissingOrInvalidCseq)
            },
            Some(number) => {
                let method_start = scan(&chars, number_end, CharClass::Blank);
                let method_end = scan(&chars, method_start, CharClass::Alphanumeric);
                Ok((number, cseq.substring_char(method_start, method_end)))
            },
        }
    }

    /// Reads a `CSeq` value.
    ///
    /// Fails, with code 1 and the message `Could not parse CSeq`, exactly
    /// when the value does not start with a digit or its number does not fit
    /// in 32 bits.
    pub fn from_str(value: &str) -> (r: Result<CSeq, SipParseError>)
        ensures
            match r {
                Ok(c) => cseq_parts(value@) == Some((c.number as nat, c.method@)),
                Err(e) => {
                    &&& cseq_parts(value@) is None
                    &&& e.code == 1
                    &&& e.message matches Some(m) && m@ == "Could not parse CSeq"@
                },
            },
    {
        match Self::parse(value) {
            Ok((number, method)) => Ok(CSeq { number, method: method.to_owned() }),
            Err(_) => Err(SipParseError::new(1, Some(String::from_str("Could not parse CSeq")))),
        }
    }
}

} // verus!
