//! One header line: a name, a colon with optional blanks around it, a value.

use crate::parser::common::sip_chars::{
    all_in, is_run, is_run_back, lemma_run_end, lemma_run_start, run_end, run_start, scan,
    scan_back, CharClass,
};
use crate::text::to_chars;
use crate::SipError;
use vstd::prelude::*;
use vstd::string::StrSliceExecFns;

verus! {

/// A header of a SIP message.
#[derive(Debug, Clone, PartialEq, Eq)]
pub struct Header {
    /// The name as received; never empty.
    pub name: String,
    /// The ASCII text after the colon, trimmed: without the blanks that
    /// lead it and without those that trail it.
    pub value: String,
    /// Parameters of the value; the line parser leaves them unsplit.
    pub params: Option<Vec<(String, String)>>,
}

/// Whether `c` is a control character.
pub open spec fn is_control(c: char) -> bool {
    (c as u32) < 0x20 || 0x7f <= (c as u32) <= 0x9f
}

/// Whether `s` holds a control character.
pub open spec fn has_control(s: Seq<char>) -> bool {
    exists|i: int| 0 <= i < s.len() && is_control(#[trigger] s[i])
}

/// The name and the value that a header line holds, if it is one.
///
/// The name is the longest prefix free of space, tab, carriage return, line
/// feed and colon; it must not be empty nor hold a control character. Blanks
/// may follow, then a colon must, then blanks may again. The value is the
/// longest ASCII run after those, cut off in front of the blanks that close
/// it: a value neither starts nor ends with a space or a tab.
pub open spec fn header_parts(line: Seq<char>) -> Option<(Seq<char>, Seq<char>)> {
    let name_end = run_end(line, 0, CharClass::NotSpaceOrColon);
    let colon = run_end(line, name_end, CharClass::Blank);
    if name_end == 0 || has_control(line.subrange(0, name_end)) || colon >= line.len()
        || line[colon] != ':' {
        None
    } else {
        let value_start = run_end(line, colon + 1, CharClass::Blank);
        let ascii_end = run_end(line, value_start, CharClass::Ascii);
        let value_end = run_start(line, value_start, ascii_end, CharClass::Blank);
        Some((line.subrange(0, name_end), line.subrange(value_start, value_end)))
    }
}

/// Tests whether one of the first `end` characters is a control character.
fn holds_control(chars: &Vec<char>, end: usize) -> (b: bool)
    requires
        end <= chars.len(),
    ensures
        b == has_control(chars@.subrange(0, end as int)),
{
    let mut i: usize = 0;
    while i < end
        invariant
            i <= end <= chars.len(),
            forall|j: int| 0 <= j < i ==> !is_control(#[trigger] chars@[j]),
        decreases end - i,
    {
        let c: u32 = chars[i] as u32;
        if c < 0x20 || (0x7f <= c && c <= 0x9f) {
            assert(chars@.subrange(0, end as int)[i as int] == chars@[i as int]);
            return true;
        }
        i = i + 1;
    }
    assert forall|j: int| 0 <= j < end implies !is_control(
        #[trigger] chars@.subrange(0, end as int)[j],
    ) by {
        assert(chars@.subrange(0, end as int)[j] == chars@[j]);
    }
    false
}

impl Header {
    /// Parses one line, given without its line terminator, into a header.
    ///
    /// The value comes out trimmed: neither the blanks behind the colon nor
    /// those at its end belong to it.
    ///
    /// Fails with `MalformedHeader` exactly when the line is no header: when
    /// it starts with whitespace or a colon, when its name holds a control
    /// character, or when something other than blanks stands between the
    /// name and the colon.
    pub fn parse(line: &str) -> (r: Result<Header, SipError>)
        ensures
            match r {
                Ok(h) => header_parts(line@) == Some((h.name@, h.value@)) && h.name@.len() > 0
                    && trimmed(h.value@) && h.params is None,
                Err(e) => e == SipError::MalformedHeader && header_parts(line@) is None,
            },
    {
        let chars = to_chars(line);
        proof {
            lemma_header_value_trimmed(line@);
        }
        let name_end = scan(&chars, 0, CharClass::NotSpaceOrColon);
        if name_end == 0 || holds_control(&chars, name_end) {
            return Err(SipError::MalformedHeader);
        }
        let colon = scan(&chars, name_end, CharClass::Blank);
        if colon >= chars.len() || chars[colon] != ':' {
            return Err(SipError::MalformedHeader);
        }
        let value_start = scan(&chars, colon + 1, CharClass::Blank);
        let ascii_end = scan(&chars, value_start, CharClass::Ascii);
        let value_end = scan_back(&chars, value_start, ascii_end, CharClass::Blank);
        Ok(
            Header {
                name: line.substring_char(0, name_end).to_owned(),
                value: line.substring_char(value_start, value_end).to_owned(),
                params: None,
            },
        )
    }
}

/// Whether `value` can be the value of a header: ASCII text that neither
/// starts nor ends with a space or a tab.
pub open spec fn trimmed(value: Seq<char>) -> bool {
    &&& all_in(value, CharClass::Ascii)
    &&& value.len() > 0 ==> !CharClass::Blank.holds(value.first()) && !CharClass::Blank.holds(
        value.last(),
    )
}

/// The value of a header is trimmed.
pub proof fn lemma_header_value_trimmed(line: Seq<char>)
    ensures
        header_parts(line) matches Some(parts) ==> parts.0.len() > 0 && trimmed(parts.1),
{
    if let Some(parts) = header_parts(line) {
        let name_end = run_end(line, 0, CharClass::NotSpaceOrColon);
        let colon = run_end(line, name_end, CharClass::Blank);
        lemma_run_end(line, 0, CharClass::NotSpaceOrColon, name_end);
        lemma_run_end(line, name_end, CharClass::Blank, colon);
        let value_start = run_end(line, colon + 1, CharClass::Blank);
        lemma_run_end(line, colon + 1, CharClass::Blank, value_start);
        let ascii_end = run_end(line, value_start, CharClass::Ascii);
        lemma_run_end(line, value_start, CharClass::Ascii, ascii_end);
        let value_end = run_start(line, value_start, ascii_end, CharClass::Blank);
        lemma_run_start(line, value_start, ascii_end, CharClass::Blank, value_end);
        let value = parts.1;
        assert forall|i: int| 0 <= i < value.len() implies CharClass::Ascii.holds(
            #[trigger] value[i],
        ) by {
            assert(value[i] == line[value_start + i]);
        }
        if value.len() > 0 {
            assert(value.first() == line[value_start]);
            assert(value.last() == line[value_end - 1]);
        }
    }
}

/// A name, blanks, a colon, blanks, a trimmed value and blanks again, put
/// together, parse back into that name and that value, however many blanks
/// there are in each of the three places.
pub proof fn lemma_header_round_trip(
    name: Seq<char>,
    before: Seq<char>,
    after: Seq<char>,
    value: Seq<char>,
    behind: Seq<char>,
)
    requires
        name.len() > 0,
        all_in(name, CharClass::NotSpaceOrColon),
        !has_control(name),
        all_in(before, CharClass::Blank),
        all_in(after, CharClass::Blank),
        trimmed(value),
        all_in(behind, CharClass::Blank),
    ensures
        header_parts(name + before + seq![':'] + after + value + behind) == Some((name, value)),
{
    let line = name + before + seq![':'] + after + value + behind;
    let n = name.len() as int;
    let c = n + before.len();
    let v = c + 1 + after.len();
    let e = v + value.len();
    let end = e + behind.len();
    assert(line.len() == end);
    assert(line[c] == ':');
    assert forall|i: int| 0 <= i < n implies line[i] == name[i] by {}
    assert forall|i: int| n <= i < c implies line[i] == before[i - n] by {}
    assert forall|i: int| c < i < v implies line[i] == after[i - c - 1] by {}
    assert forall|i: int| v <= i < e implies line[i] == value[i - v] by {}
    assert forall|i: int| e <= i < end implies line[i] == behind[i - e] by {}
    assert(is_run(line, 0, CharClass::NotSpaceOrColon, n)) by {
        if before.len() > 0 {
            assert(line[n] == before[0]);
        }
    }
    lemma_run_end(line, 0, CharClass::NotSpaceOrColon, n);
    assert(is_run(line, n, CharClass::Blank, c));
    lemma_run_end(line, n, CharClass::Blank, c);
    assert(line.subrange(0, n) =~= name);
    if value.len() > 0 {
        assert(line[v] == value.first());
        assert(line[e - 1] == value.last());
        assert(is_run(line, c + 1, CharClass::Blank, v));
        lemma_run_end(line, c + 1, CharClass::Blank, v);
        assert(is_run(line, v, CharClass::Ascii, end));
        lemma_run_end(line, v, CharClass::Ascii, end);
        assert(is_run_back(line, v, end, CharClass::Blank, e));
        lemma_run_start(line, v, end, CharClass::Blank, e);
        assert(line.subrange(v, e) =~= value);
    } else {
        assert(is_run(line, c + 1, CharClass::Blank, end));
        lemma_run_end(line, c + 1, CharClass::Blank, end);
        assert(is_run(line, end, CharClass::Ascii, end));
        lemma_run_end(line, end, CharClass::Ascii, end);
        assert(line.subrange(end, end) =~= value);
    }
}

} // verus!
