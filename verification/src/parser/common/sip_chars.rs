//! Character classes of the SIP grammar and the scanners that split a text
//! after the longest run of one class.

use crate::text::to_chars;
use crate::SipError;
use vstd::prelude::*;
use vstd::string::StrSliceExecFns;

verus! {

/// A set of characters that a scanner accepts.
#[derive(Debug, Clone, Copy, PartialEq, Eq, Structural)]
pub enum CharClass {
    /// The 128 ASCII characters.
    Ascii,
    /// Everything but space, tab, carriage return, line feed and colon.
    NotSpaceOrColon,
    /// Horizontal whitespace: space and tab.
    Blank,
    /// The decimal digits `0` to `9`.
    Digit,
    /// The ASCII letters and the decimal digits.
    Alphanumeric,
    /// Every character but the given one.
    Except(char),
}

impl CharClass {
    /// Whether `c` belongs to the class.
    pub open spec fn holds(self, c: char) -> bool {
        match self {
            CharClass::Ascii => (c as u32) < 128,
            CharClass::NotSpaceOrColon => c != ' ' && c != '\t' && c != '\r' && c != '\n' && c
                != ':',
            CharClass::Blank => c == ' ' || c == '\t',
            CharClass::Digit => '0' <= c <= '9',
            CharClass::Alphanumeric => ('0' <= c <= '9') || ('a' <= c <= 'z') || ('A' <= c
                <= 'Z'),
            CharClass::Except(x) => c != x,
        }
    }

    /// Tests whether `c` belongs to the class.
    pub fn test(&self, c: char) -> (b: bool)
        ensures
            b == self.holds(c),
    {
        match self {
            CharClass::Ascii => (c as u32) < 128,
            CharClass::NotSpaceOrColon => c != ' ' && c != '\t' && c != '\r' && c != '\n' && c
                != ':',
            CharClass::Blank => c == ' ' || c == '\t',
            CharClass::Digit => '0' <= c && c <= '9',
            CharClass::Alphanumeric => ('0' <= c && c <= '9') || ('a' <= c && c <= 'z') || ('A'
                <= c && c <= 'Z'),
            CharClass::Except(x) => c != *x,
        }
    }
}

/// Whether every character of `s` belongs to `class`.
pub open spec fn all_in(s: Seq<char>, class: CharClass) -> bool {
    forall|i: int| 0 <= i < s.len() ==> class.holds(#[trigger] s[i])
}

/// The length of the longest prefix of `s` whose characters all belong to
/// `class`.
pub open spec fn run_len(s: Seq<char>, class: CharClass) -> nat
    decreases s.len(),
{
    if s.len() > 0 && class.holds(s[0]) {
        1 + run_len(s.skip(1), class)
    } else {
        0
    }
}

/// Where the longest run of `class` that starts at `start` ends.
pub open spec fn run_end(s: Seq<char>, start: int, class: CharClass) -> int {
    start + run_len(s.skip(start), class)
}

/// Whether the characters of `s` from `start` up to `end` belong to `class`
/// and the one at `end`, if there is one, does not.
pub open spec fn is_run(s: Seq<char>, start: int, class: CharClass, end: int) -> bool {
    &&& start <= end <= s.len()
    &&& forall|i: int| start <= i < end ==> class.holds(#[trigger] s[i])
    &&& end < s.len() ==> !class.holds(s[end])
}

/// A run ends where `run_end` says, and nowhere else.
pub proof fn lemma_run_end(s: Seq<char>, start: int, class: CharClass, end: int)
    requires
        0 <= start <= s.len(),
    ensures
        is_run(s, start, class, end) <==> end == run_end(s, start, class),
    decreases s.len() - start,
{
    let t = s.skip(start);
    if t.len() > 0 && class.holds(t[0]) {
        assert(t.skip(1) =~= s.skip(start + 1));
        lemma_run_end(s, start + 1, class, end);
        if is_run(s, start, class, end) {
            if end == start {
                assert(t[0] == s[end]);
            }
            assert(is_run(s, start + 1, class, end));
        }
    } else {
        if is_run(s, start, class, end) && end > start {
            assert(t[0] == s[start]);
        }
    }
}

/// The end of the longest run of `class` that starts at `start`.
pub fn scan(chars: &Vec<char>, start: usize, class: CharClass) -> (end: usize)
    requires
        start <= chars.len(),
    ensures
        start <= end <= chars.len(),
        end == run_end(chars@, start as int, class),
{
    let mut i: usize = start;
    while i < chars.len() && class.test(chars[i])
        invariant
            start <= i <= chars.len(),
            forall|j: int| start <= j < i ==> class.holds(#[trigger] chars@[j]),
        decreases chars.len() - i,
    {
        i = i + 1;
    }
    proof {
        lemma_run_end(chars@, start as int, class, i as int);
    }
    i
}

/// Where the longest run of `class` that ends at `end` starts, looking no
/// further back than `start`.
pub open spec fn run_start(s: Seq<char>, start: int, end: int, class: CharClass) -> int
    decreases end - start,
{
    if start < end && 0 < end <= s.len() && class.holds(s[end - 1]) {
        run_start(s, start, end - 1, class)
    } else {
        end
    }
}

/// Whether the characters of `s` from `at` up to `end` belong to `class`
/// and the one in front of `at` does not, unless `at` is `start`.
pub open spec fn is_run_back(s: Seq<char>, start: int, end: int, class: CharClass, at: int) -> bool {
    &&& start <= at <= end
    &&& forall|i: int| at <= i < end ==> class.holds(#[trigger] s[i])
    &&& start < at ==> !class.holds(s[at - 1])
}

/// A run that ends at `end` starts where `run_start` says, and nowhere
/// else.
pub proof fn lemma_run_start(s: Seq<char>, start: int, end: int, class: CharClass, at: int)
    requires
        0 <= start <= end <= s.len(),
    ensures
        is_run_back(s, start, end, class, at) <==> at == run_start(s, start, end, class),
    decreases end - start,
{
    if start < end && class.holds(s[end - 1]) {
        lemma_run_start(s, start, end - 1, class, at);
    }
}

/// The start of the longest run of `class` that ends at `end`, looking no
/// further back than `start`.
pub fn scan_back(chars: &Vec<char>, start: usize, end: usize, class: CharClass) -> (at: usize)
    requires
        start <= end <= chars.len(),
    ensures
        start <= at <= end,
        at == run_start(chars@, start as int, end as int, class),
{
    let mut i: usize = end;
    while i > start && class.test(chars[i - 1])
        invariant
            start <= i <= end <= chars.len(),
            forall|j: int| i <= j < end ==> class.holds(#[trigger] chars@[j]),
        decreases i,
    {
        i = i - 1;
    }
    proof {
        lemma_run_start(chars@, start as int, end as int, class, i as int);
    }
    i
}

/// Splits `input` after its longest prefix of characters of `class` and
/// gives the rest first, the prefix second.
fn split_run<'a>(input: &'a str, class: CharClass) -> (r: (&'a str, &'a str))
    ensures
        0 <= run_end(input@, 0, class) <= input@.len(),
        r.1@ == input@.take(run_end(input@, 0, class)),
        r.0@ == input@.skip(run_end(input@, 0, class)),
{
    let chars = to_chars(input);
    let n = scan(&chars, 0, class);
    (input.substring_char(n, chars.len()), input.substring_char(0, n))
}

/// Splits `input` after its longest ASCII prefix: the rest comes first, the
/// prefix second. Never fails; the prefix may be empty.
pub fn is_any_ascii(input: &str) -> (r: Result<(&str, &str), SipError>)
    ensures
        r matches Ok(p) && p.1@ == input@.take(run_end(input@, 0, CharClass::Ascii)) && p.0@
            == input@.skip(run_end(input@, 0, CharClass::Ascii)),
{
    Ok(split_run(input, CharClass::Ascii))
}

/// Splits `input` after its longest ASCII prefix: the rest comes first, the
/// prefix second. Never fails; the prefix may be empty.
pub fn ascii(input: &str) -> (r: Result<(&str, &str), SipError>)
    ensures
        r matches Ok(p) && p.1@ == input@.take(run_end(input@, 0, CharClass::Ascii)) && p.0@
            == input@.skip(run_end(input@, 0, CharClass::Ascii)),
{
    Ok(split_run(input, CharClass::Ascii))
}

/// Splits `s` after its longest prefix free of space, tab, carriage return,
/// line feed and colon: the rest comes first, the prefix second. Fails with
/// `MalformedHeader` exactly when that prefix is empty.
pub fn not_space_or_colon(s: &str) -> (r: Result<(&str, &str), SipError>)
    ensures
        match r {
            Ok(p) => {
                &&& run_end(s@, 0, CharClass::NotSpaceOrColon) > 0
                &&& p.1@ == s@.take(run_end(s@, 0, CharClass::NotSpaceOrColon))
                &&& p.0@ == s@.skip(run_end(s@, 0, CharClass::NotSpaceOrColon))
            },
            Err(e) => e == SipError::MalformedHeader && run_end(s@, 0, CharClass::NotSpaceOrColon)
                == 0,
        },
{
    let p = split_run(s, CharClass::NotSpaceOrColon);
    if p.1.unicode_len() == 0 {
        Err(SipError::MalformedHeader)
    } else {
        Ok(p)
    }
}

} // verus!
