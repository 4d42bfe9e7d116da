//! Text as sequences of characters: conversion from `str`, comparison,
//! decimal numbers and splitting into lines.

use crate::parser::common::sip_chars::{all_in, CharClass};
use vstd::prelude::*;
use vstd::string::StrSliceExecFns;
use vstd::string::StringExecFns;

verus! {

/// The characters of `s`, in order.
pub fn to_chars(s: &str) -> (v: Vec<char>)
    ensures
        v@ == s@,
{
    let mut v: Vec<char> = Vec::new();
    for c in it: s.chars()
        invariant
            v@ == it.seq().take(it.index() as int),
    {
        v.push(c);
    }
    v
}

/// Tests whether the characters from `start` to `end` spell `word`.
pub fn spells(chars: &Vec<char>, start: usize, end: usize, word: &str) -> (b: bool)
    requires
        start <= end <= chars.len(),
    ensures
        b == (chars@.subrange(start as int, end as int) == word@),
{
    let w = to_chars(word);
    if w.len() != end - start {
        return false;
    }
    let mut i: usize = 0;
    while i < w.len()
        invariant
            start <= end <= chars.len(),
            w.len() == end - start,
            w@ == word@,
            i <= w.len(),
            forall|j: int| 0 <= j < i ==> chars@[start + j] == w@[j],
        decreases w.len() - i,
    {
        if chars[start + i] != w[i] {
            assert(chars@.subrange(start as int, end as int)[i as int] == chars@[start + i]);
            return false;
        }
        i = i + 1;
    }
    assert(chars@.subrange(start as int, end as int) =~= w@);
    true
}

/// Tests whether `word` stands at the front of the characters.
pub fn begins_with(chars: &Vec<char>, word: &str) -> (b: bool)
    ensures
        b == word@.is_prefix_of(chars@),
{
    let n = word.unicode_len();
    if n > chars.len() {
        return false;
    }
    spells(chars, 0, n, word)
}

/// Whether `s` is a decimal number: one digit or more and nothing else.
pub open spec fn is_number(s: Seq<char>) -> bool {
    s.len() > 0 && all_in(s, CharClass::Digit)
}

/// The digit that stands for `d`, for `d` below ten.
pub open spec fn digit_char(d: nat) -> char {
    if d == 0 {
        '0'
    } else if d == 1 {
        '1'
    } else if d == 2 {
        '2'
    } else if d == 3 {
        '3'
    } else if d == 4 {
        '4'
    } else if d == 5 {
        '5'
    } else if d == 6 {
        '6'
    } else if d == 7 {
        '7'
    } else if d == 8 {
        '8'
    } else {
        '9'
    }
}

/// The number that the digit `c` stands for.
pub open spec fn digit_value(c: char) -> nat {
    (c as u32 - '0' as u32) as nat
}

/// The number that the digits of `s` spell in base ten; leading zeros count
/// for nothing.
pub open spec fn decimal_value(s: Seq<char>) -> nat
    decreases s.len(),
{
    if s.len() == 0 {
        0
    } else {
        decimal_value(s.drop_last()) * 10 + digit_value(s.last())
    }
}

/// The digits of `n` in base ten, without leading zeros.
pub open spec fn decimal_text(n: nat) -> Seq<char>
    decreases n,
{
    if n < 10 {
        seq![digit_char(n)]
    } else {
        decimal_text(n / 10).push(digit_char(n % 10))
    }
}

/// The text of a number spells that number.
pub proof fn lemma_decimal_round_trip(n: nat)
    ensures
        is_number(decimal_text(n)),
        decimal_value(decimal_text(n)) == n,
    decreases n,
{
    let t = decimal_text(n);
    if n < 10 {
        assert(t.drop_last() =~= Seq::<char>::empty());
        assert(decimal_value(t.drop_last()) == 0);
    } else {
        lemma_decimal_round_trip(n / 10);
        assert(t.drop_last() =~= decimal_text(n / 10));
        assert forall|i: int| 0 <= i < t.len() implies CharClass::Digit.holds(#[trigger] t[i]) by {
            if i < t.len() - 1 {
                assert(t[i] == decimal_text(n / 10)[i]);
            }
        }
    }
}

/// A number is no smaller than the number that its first digits spell.
pub proof fn lemma_decimal_prefix(s: Seq<char>, k: int)
    requires
        0 <= k <= s.len(),
    ensures
        decimal_value(s.take(k)) <= decimal_value(s),
    decreases s.len(),
{
    if k == s.len() {
        assert(s.take(k) =~= s);
    } else {
        lemma_decimal_prefix(s.drop_last(), k);
        assert(s.drop_last().take(k) =~= s.take(k));
    }
}

/// Reads the characters from `start` to `end` as a decimal number of at most
/// `max`.
pub fn parse_decimal(chars: &Vec<char>, start: usize, end: usize, max: u32) -> (r: Option<u32>)
    requires
        start <= end <= chars.len(),
    ensures
        match r {
            Some(v) => is_number(chars@.subrange(start as int, end as int)) && v == decimal_value(
                chars@.subrange(start as int, end as int),
            ) && v <= max,
            None => !is_number(chars@.subrange(start as int, end as int)) || decimal_value(
                chars@.subrange(start as int, end as int),
            ) > max,
        },
{
    let ghost s = chars@.subrange(start as int, end as int);
    if start == end {
        return None;
    }
    let mut acc: u64 = 0;
    let mut i: usize = start;
    while i < end
        invariant
            start <= i <= end <= chars.len(),
            s == chars@.subrange(start as int, end as int),
            acc == decimal_value(s.take(i - start)),
            acc <= max,
            all_in(s.take(i - start), CharClass::Digit),
        decreases end - i,
    {
        let c: char = chars[i];
        if !(CharClass::Digit.test(c)) {
            assert(s[i - start] == c);
            return None;
        }
        let d: u64 = (c as u32 - '0' as u32) as u64;
        proof {
            let t = s.take(i + 1 - start);
            assert(t.drop_last() =~= s.take(i - start));
            assert(t.last() == c);
            assert(decimal_value(t) == acc * 10 + d);
            assert forall|j: int| 0 <= j < t.len() implies CharClass::Digit.holds(
                #[trigger] t[j],
            ) by {
                if j < t.len() - 1 {
                    assert(t[j] == s.take(i - start)[j]);
                }
            }
        }
        if acc * 10 + d > max as u64 {
            proof {
                lemma_decimal_prefix(s, i + 1 - start);
            }
            return None;
        }
        acc = acc * 10 + d;
        i = i + 1;
    }
    assert(s.take(end - start) =~= s);
    Some(acc as u32)
}

/// The one-character text of a digit.
fn digit_str(d: u32) -> (r: &'static str)
    requires
        d < 10,
    ensures
        r@ == seq![digit_char(d as nat)],
{
    proof {
        reveal_strlit("0");
        reveal_strlit("1");
        reveal_strlit("2");
        reveal_strlit("3");
        reveal_strlit("4");
        reveal_strlit("5");
        reveal_strlit("6");
        reveal_strlit("7");
        reveal_strlit("8");
        reveal_strlit("9");
    }
    let r = match d {
        0 => "0",
        1 => "1",
        2 => "2",
        3 => "3",
        4 => "4",
        5 => "5",
        6 => "6",
        7 => "7",
        8 => "8",
        _ => "9",
    };
    assert(r@ =~= seq![digit_char(d as nat)]);
    r
}

/// Appends the decimal digits of `n` to `out`.
pub fn append_decimal(out: &mut String, n: u32)
    ensures
        final(out)@ == old(out)@ + decimal_text(n as nat),
    decreases n,
{
    if n >= 10 {
        append_decimal(out, n / 10);
    }
    out.append(digit_str(n % 10));
    assert(final(out)@ =~= old(out)@ + decimal_text(n as nat));
}

/// Tests whether two texts hold the same characters.
pub fn same_text(a: &str, b: &str) -> (r: bool)
    ensures
        r == (a@ == b@),
{
    let chars = to_chars(a);
    assert(chars@.subrange(0, chars@.len() as int) =~= a@);
    spells(&chars, 0, chars.len(), b)
}

/// Whether a line terminator, carriage return and line feed, starts at `i`.
pub open spec fn crlf_at(s: Seq<char>, i: int) -> bool {
    0 <= i && i + 1 < s.len() && s[i] == '\r' && s[i + 1] == '\n'
}

/// Where the first line terminator at or after `start` begins; the length of
/// `s` if there is none.
pub open spec fn next_crlf(s: Seq<char>, start: int) -> int
    decreases s.len() - start,
{
    if start < 0 || start >= s.len() {
        s.len() as int
    } else if crlf_at(s, start) {
        start
    } else {
        next_crlf(s, start + 1)
    }
}

/// Whether no line terminator begins from `start` up to `end`, and one
/// begins at `end` unless `end` is the length of `s`.
pub open spec fn is_next_crlf(s: Seq<char>, start: int, end: int) -> bool {
    &&& start <= end <= s.len()
    &&& forall|i: int| start <= i < end ==> !crlf_at(s, i)
    &&& end < s.len() ==> crlf_at(s, end)
}

/// The next line terminator is where `next_crlf` says, and nowhere else.
pub proof fn lemma_next_crlf(s: Seq<char>, start: int, end: int)
    requires
        0 <= start <= s.len(),
    ensures
        is_next_crlf(s, start, end) <==> end == next_crlf(s, start),
    decreases s.len() - start,
{
    if start < s.len() && !crlf_at(s, start) {
        lemma_next_crlf(s, start + 1, end);
    }
}

/// The lines of `s` from `start` on: the texts between line terminators,
/// and the text after the last one, which may be empty. (A terminator takes
/// two characters, so one that begins at `end` leaves `end + 2 <= s.len()`.)
pub open spec fn lines_from(s: Seq<char>, start: int) -> Seq<Seq<char>>
    decreases s.len() - start,
{
    let end = next_crlf(s, start);
    if start < 0 || end < start || end + 2 > s.len() {
        seq![s.subrange(start, s.len() as int)]
    } else {
        seq![s.subrange(start, end)] + lines_from(s, end + 2)
    }
}

/// The lines of `s`: what stands between its line terminators, in order. A
/// text with `n` terminators has `n + 1` lines.
pub open spec fn lines_of(s: Seq<char>) -> Seq<Seq<char>> {
    lines_from(s, 0)
}

/// Whether no line terminator begins anywhere in `s`.
pub open spec fn no_terminator(s: Seq<char>) -> bool {
    forall|i: int| !crlf_at(s, i)
}

/// Whether `s` holds neither a carriage return nor a line feed.
pub open spec fn plain(s: Seq<char>) -> bool {
    forall|i: int| 0 <= i < s.len() ==> #[trigger] s[i] != '\r' && s[i] != '\n'
}

/// Two texts without carriage return and line feed make a third.
pub proof fn lemma_plain_concat(a: Seq<char>, b: Seq<char>)
    requires
        plain(a),
        plain(b),
    ensures
        plain(a + b),
{
    assert forall|i: int| 0 <= i < (a + b).len() implies #[trigger] (a + b)[i] != '\r' && (a
        + b)[i] != '\n' by {
        if i < a.len() {
            assert((a + b)[i] == a[i]);
        } else {
            assert((a + b)[i] == b[i - a.len()]);
        }
    }
}

/// The digits of a number hold neither a carriage return nor a line feed.
pub proof fn lemma_decimal_plain(n: nat)
    ensures
        plain(decimal_text(n)),
{
    lemma_decimal_round_trip(n);
    let t = decimal_text(n);
    assert forall|i: int| 0 <= i < t.len() implies #[trigger] t[i] != '\r' && t[i] != '\n' by {
        assert(CharClass::Digit.holds(t[i]));
    }
}

/// A text without a line terminator, set between two texts that hold
/// neither a carriage return nor a line feed, makes a text without a line
/// terminator.
pub proof fn lemma_no_terminator_between(a: Seq<char>, m: Seq<char>, b: Seq<char>)
    requires
        plain(a),
        no_terminator(m),
        plain(b),
    ensures
        no_terminator(a + m + b),
{
    let s = a + m + b;
    assert forall|i: int| !crlf_at(s, i) by {
        if 0 <= i && i + 1 < s.len() {
            if i < a.len() {
                assert(s[i] == a[i]);
            } else if i < a.len() + m.len() {
                assert(s[i] == m[i - a.len()]);
                if i + 1 < a.len() + m.len() {
                    assert(s[i + 1] == m[i + 1 - a.len()]);
                    assert(!crlf_at(m, i - a.len()));
                } else {
                    assert(s[i + 1] == b[i + 1 - a.len() - m.len()]);
                }
            } else {
                assert(s[i] == b[i - a.len() - m.len()]);
            }
        }
    }
}

/// A line without a line terminator, followed by one, is the first line
/// that is read after whatever stands in front of it.
pub proof fn lemma_line_then_rest(pre: Seq<char>, line: Seq<char>, post: Seq<char>)
    requires
        no_terminator(line),
    ensures
        lines_from(pre + line + "\r\n"@ + post, pre.len() as int) == seq![line] + lines_from(
            pre + line + "\r\n"@ + post,
            (pre.len() + line.len() + 2) as int,
        ),
{
    reveal_strlit("\r\n");
    let s = pre + line + "\r\n"@ + post;
    let start = pre.len() as int;
    let end = start + line.len();
    assert(s[end] == '\r');
    assert(s[end + 1] == '\n');
    assert forall|i: int| start <= i < end implies !crlf_at(s, i) by {
        assert(s[i] == line[i - start]);
        if i + 1 < end {
            assert(s[i + 1] == line[i + 1 - start]);
            assert(!crlf_at(line, i - start));
        }
    }
    lemma_next_crlf(s, start, end);
    assert(s.subrange(start, end) =~= line);
}

/// The characters of each text of `v`.
pub open spec fn str_views(v: Seq<&str>) -> Seq<Seq<char>> {
    Seq::new(v.len(), |i: int| v[i]@)
}

/// The characters of each text of `v`.
pub open spec fn string_views(v: Seq<String>) -> Seq<Seq<char>> {
    Seq::new(v.len(), |i: int| v[i]@)
}

/// Where the first line terminator at or after `start` begins.
fn find_crlf(chars: &Vec<char>, start: usize) -> (end: usize)
    requires
        start <= chars.len(),
    ensures
        end == next_crlf(chars@, start as int),
        start <= end <= chars.len(),
        end < chars.len() ==> end + 2 <= chars.len(),
{
    let mut i: usize = start;
    while i < chars.len()
        invariant
            start <= i <= chars.len(),
            forall|j: int| start <= j < i ==> !crlf_at(chars@, j),
        decreases chars.len() - i,
    {
        if chars[i] == '\r' && i + 1 < chars.len() && chars[i + 1] == '\n' {
            proof {
                lemma_next_crlf(chars@, start as int, i as int);
            }
            return i;
        }
        i = i + 1;
    }
    proof {
        lemma_next_crlf(chars@, start as int, i as int);
    }
    i
}

/// Splits a text at its line terminators.
pub fn split_lines<'a>(text: &'a str) -> (lines: Vec<&'a str>)
    ensures
        str_views(lines@) == lines_of(text@),
        lines@.len() > 0,
{
    let chars = to_chars(text);
    let mut lines: Vec<&'a str> = Vec::new();
    let mut start: usize = 0;
    let mut done: bool = false;
    while !done
        invariant
            chars@ == text@,
            start <= chars.len(),
            !done ==> lines_of(text@) == str_views(lines@) + lines_from(text@, start as int),
            done ==> lines_of(text@) == str_views(lines@) && lines@.len() > 0,
        decreases
            (if done {
                0
            } else {
                chars.len() - start + 1
            }),
    {
        let end = find_crlf(&chars, start);
        let ghost before = str_views(lines@);
        if end >= chars.len() {
            lines.push(text.substring_char(start, chars.len()));
            done = true;
            assert(str_views(lines@) =~= before + lines_from(text@, start as int));
        } else {
            lines.push(text.substring_char(start, end));
            assert(str_views(lines@) =~= before + seq![text@.subrange(start as int, end as int)]);
            assert(before + lines_from(text@, start as int) =~= str_views(lines@) + lines_from(
                text@,
                end + 2,
            ));
            start = end + 2;
        }
    }
    lines
}

} // verus!
