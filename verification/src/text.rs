//! Scanning of text, character by character.
//!
//! Every function here takes and returns strings; what it computes is stated
//! over the sequence of characters that a string holds.

use std::borrow::Cow;
use vstd::prelude::*;
use vstd::string::*;

verus! {

/// `String::push` appends one character to the end of the string.
pub assume_specification[ String::push ](s: &mut String, c: char)
    ensures
        final(s)@ == old(s)@.push(c),
;

/// The characters of `s`, in order.
pub fn chars_of(s: &str) -> (v: Vec<char>)
    ensures
        v@ == s@,
{
    let mut v: Vec<char> = Vec::new();
    for c in it: s.chars()
        invariant
            v@ == it.seq().take(it.index() as int),
            it.seq() == s@,
    {
        v.push(c);
    }
    v
}

/// A character with the Unicode property `White_Space`.
pub open spec fn is_whitespace(c: char) -> bool {
    ||| '\u{9}' <= c <= '\u{d}'
    ||| c == ' '
    ||| c == '\u{85}'
    ||| c == '\u{a0}'
    ||| c == '\u{1680}'
    ||| '\u{2000}' <= c <= '\u{200a}'
    ||| c == '\u{2028}'
    ||| c == '\u{2029}'
    ||| c == '\u{202f}'
    ||| c == '\u{205f}'
    ||| c == '\u{3000}'
}

/// Whether `c` is white space.
pub fn is_whitespace_char(c: char) -> (b: bool)
    ensures
        b == is_whitespace(c),
{
    (c >= '\u{9}' && c <= '\u{d}') || c == ' ' || c == '\u{85}' || c == '\u{a0}' || c
        == '\u{1680}' || (c >= '\u{2000}' && c <= '\u{200a}') || c == '\u{2028}' || c
        == '\u{2029}' || c == '\u{202f}' || c == '\u{205f}' || c == '\u{3000}'
}

/// The index of the first character at or after `from` that is not white
/// space; the length of `s` if there is none.
pub open spec fn first_non_whitespace(s: Seq<char>, from: int) -> int
    decreases s.len() - from,
{
    if 0 <= from < s.len() && is_whitespace(s[from]) {
        first_non_whitespace(s, from + 1)
    } else {
        from
    }
}

/// The index just after the last character before `to`, and not before
/// `from`, that is not white space; `from` if there is none.
pub open spec fn last_non_whitespace(s: Seq<char>, from: int, to: int) -> int
    decreases to - from,
{
    if from < to <= s.len() && 0 < to && is_whitespace(s[to - 1]) {
        last_non_whitespace(s, from, to - 1)
    } else {
        to
    }
}

/// `s` without its leading white space.
pub open spec fn trimmed_start(s: Seq<char>) -> Seq<char> {
    s.skip(first_non_whitespace(s, 0))
}

/// `s` without its leading and trailing white space.
pub open spec fn trimmed(s: Seq<char>) -> Seq<char> {
    let from = first_non_whitespace(s, 0);
    s.subrange(from, last_non_whitespace(s, from, s.len() as int))
}

fn scan_whitespace(v: &Vec<char>) -> (i: usize)
    ensures
        i == first_non_whitespace(v@, 0),
        i <= v.len(),
{
    let mut i: usize = 0;
    while i < v.len() && is_whitespace_char(v[i])
        invariant
            i <= v.len(),
            first_non_whitespace(v@, 0) == first_non_whitespace(v@, i as int),
        decreases v.len() - i,
    {
        i += 1;
    }
    i
}

fn scan_whitespace_back(v: &Vec<char>, from: usize) -> (j: usize)
    requires
        from <= v.len(),
    ensures
        j == last_non_whitespace(v@, from as int, v.len() as int),
        from <= j <= v.len(),
{
    let mut j: usize = v.len();
    while from < j && is_whitespace_char(v[j - 1])
        invariant
            from <= j <= v.len(),
            last_non_whitespace(v@, from as int, v.len() as int) == last_non_whitespace(
                v@,
                from as int,
                j as int,
            ),
        decreases j,
    {
        j -= 1;
    }
    j
}

/// The part of `s` from its first character that is not white space.
pub fn trim_start<'a>(s: &'a str) -> (r: &'a str)
    ensures
        r@ == trimmed_start(s@),
{
    let v = chars_of(s);
    let i = scan_whitespace(&v);
    s.substring_char(i, v.len())
}

/// The part of `s` between its leading and its trailing white space.
pub fn trim<'a>(s: &'a str) -> (r: &'a str)
    ensures
        r@ == trimmed(s@),
{
    let v = chars_of(s);
    let i = scan_whitespace(&v);
    let j = scan_whitespace_back(&v, i);
    s.substring_char(i, j)
}

/// Whether `s` begins with the characters of `prefix`.
pub fn starts_with(s: &str, prefix: &str) -> (b: bool)
    ensures
        b == prefix@.is_prefix_of(s@),
{
    let v = chars_of(s);
    let p = chars_of(prefix);
    if p.len() > v.len() {
        return false;
    }
    let mut i: usize = 0;
    while i < p.len()
        invariant
            i <= p.len() <= v.len(),
            v@ == s@,
            p@ == prefix@,
            forall|k: int| 0 <= k < i ==> v@[k] == p@[k],
        decreases p.len() - i,
    {
        if v[i] != p[i] {
            assert(v@.subrange(0, p@.len() as int)[i as int] != p@[i as int]);
            return false;
        }
        i += 1;
    }
    assert(p@ =~= v@.subrange(0, p@.len() as int));
    true
}

/// `s` without its first `n` characters.
pub fn skip_chars<'a>(s: &'a str, n: usize) -> (r: &'a str)
    requires
        n <= s@.len(),
    ensures
        r@ == s@.skip(n as int),
{
    let len = s.unicode_len();
    s.substring_char(n, len)
}

/// `line` without a carriage return at its end.
pub open spec fn without_carriage_return(line: Seq<char>) -> Seq<char> {
    if line.len() > 0 && line.last() == '\r' {
        line.drop_last()
    } else {
        line
    }
}

/// The lines of `s` from `start` on, where the characters from `start` up to
/// `i` are known to hold no line feed.
pub open spec fn lines_scan(s: Seq<char>, start: int, i: int) -> Seq<Seq<char>>
    decreases s.len() - i,
{
    if i < 0 || i >= s.len() {
        if 0 <= start < s.len() {
            seq![s.subrange(start, s.len() as int)]
        } else {
            seq![]
        }
    } else if s[i] == '\n' {
        seq![without_carriage_return(s.subrange(start, i))] + lines_scan(s, i + 1, i + 1)
    } else {
        lines_scan(s, start, i + 1)
    }
}

/// The lines of `s`. A line ends at a line feed, or at the end of `s` where
/// characters are left after the last line feed. The line feed is no part of
/// the line, nor is a carriage return just before it.
pub open spec fn lines_of(s: Seq<char>) -> Seq<Seq<char>> {
    lines_scan(s, 0, 0)
}

/// The lines of `s`, in order.
pub fn lines<'a>(s: &'a str) -> (r: Vec<&'a str>)
    ensures
        r.len() == lines_of(s@).len(),
        forall|k: int| 0 <= k < r.len() ==> (#[trigger] r[k])@ == lines_of(s@)[k],
{
    let v = chars_of(s);
    let mut r: Vec<&'a str> = Vec::new();
    let ghost mut done: Seq<Seq<char>> = seq![];
    let mut start: usize = 0;
    let mut i: usize = 0;
    while i < v.len()
        invariant
            v@ == s@,
            start <= i <= v.len(),
            r.len() == done.len(),
            forall|k: int| 0 <= k < r.len() ==> (#[trigger] r[k])@ == done[k],
            lines_of(s@) == done + lines_scan(s@, start as int, i as int),
        decreases v.len() - i,
    {
        if v[i] == '\n' {
            let end = if start < i && v[i - 1] == '\r' {
                i - 1
            } else {
                i
            };
            let line = s.substring_char(start, end);
            proof {
                let whole = s@.subrange(start as int, i as int);
                assert(line@ =~= without_carriage_return(whole));
                let rest = lines_scan(s@, i + 1, i + 1);
                assert(done + (seq![line@] + rest) =~= done.push(line@) + rest);
                done = done.push(line@);
            }
            r.push(line);
            start = i + 1;
        }
        i += 1;
    }
    if start < v.len() {
        let line = s.substring_char(start, v.len());
        proof {
            assert(done + seq![line@] =~= done.push(line@));
            done = done.push(line@);
        }
        r.push(line);
    } else {
        assert(done + Seq::<Seq<char>>::empty() =~= done);
    }
    r
}

/// Whether the characters of `pat` stand in `s` from index `i` on.
pub open spec fn occurs_at(s: Seq<char>, pat: Seq<char>, i: int) -> bool {
    0 <= i && i + pat.len() <= s.len() && s.subrange(i, i + pat.len()) == pat
}

/// The least index at or after `from` at which `pat` occurs in `s`.
pub open spec fn first_occurrence(s: Seq<char>, pat: Seq<char>, from: int) -> Option<int>
    decreases s.len() - from + 1,
{
    if from < 0 || from + pat.len() > s.len() {
        None
    } else if occurs_at(s, pat, from) {
        Some(from)
    } else {
        first_occurrence(s, pat, from + 1)
    }
}

fn matches_at(v: &Vec<char>, p: &Vec<char>, at: usize) -> (b: bool)
    requires
        at + p.len() <= v.len(),
    ensures
        b == occurs_at(v@, p@, at as int),
{
    let mut k: usize = 0;
    while k < p.len()
        invariant
            k <= p.len(),
            at + p.len() <= v.len(),
            forall|j: int| 0 <= j < k ==> v@[at + j] == p@[j],
        decreases p.len() - k,
    {
        if v[at + k] != p[k] {
            assert(v@.subrange(at as int, at + p@.len())[k as int] != p@[k as int]);
            return false;
        }
        k += 1;
    }
    assert(v@.subrange(at as int, at + p@.len()) =~= p@);
    true
}

/// The index of the first character of the first occurrence of `pat` in `s`.
pub fn find(s: &str, pat: &str) -> (r: Option<usize>)
    ensures
        match r {
            Some(i) => first_occurrence(s@, pat@, 0) == Some(i as int) && i + pat@.len()
                <= s@.len(),
            None => first_occurrence(s@, pat@, 0) is None,
        },
{
    let v = chars_of(s);
    let p = chars_of(pat);
    if p.len() > v.len() {
        return None;
    }
    let last = v.len() - p.len();
    let mut i: usize = 0;
    loop
        invariant
            v@ == s@,
            p@ == pat@,
            last + p.len() == v.len(),
            i <= last,
            first_occurrence(s@, pat@, 0) == first_occurrence(s@, pat@, i as int),
        decreases last - i,
    {
        if matches_at(&v, &p, i) {
            return Some(i);
        }
        if i == last {
            assert(first_occurrence(s@, pat@, i + 1) is None);
            return None;
        }
        i += 1;
    }
}

/// The character that stands for the digit `d`.
pub open spec fn digit_char(d: int) -> char {
    if d == 0 {
        '0'
    } else if d == 1 {
        '1'
    } else if d == 2 {
        '2'
    } else if d == 3 {
        '3'
    } else if d == 4 {
        '4'
    } else if d == 5 {
        '5'
    } else if d == 6 {
        '6'
    } else if d == 7 {
        '7'
    } else if d == 8 {
        '8'
    } else {
        '9'
    }
}

/// `n` written in base ten, without leading zeros.
pub open spec fn decimal(n: nat) -> Seq<char>
    decreases n,
{
    if n < 10 {
        seq![digit_char(n as int)]
    } else {
        decimal(n / 10).push(digit_char((n % 10) as int))
    }
}

fn digit(d: usize) -> (c: char)
    requires
        d < 10,
    ensures
        c == digit_char(d as int),
{
    if d == 0 {
        '0'
    } else if d == 1 {
        '1'
    } else if d == 2 {
        '2'
    } else if d == 3 {
        '3'
    } else if d == 4 {
        '4'
    } else if d == 5 {
        '5'
    } else if d == 6 {
        '6'
    } else if d == 7 {
        '7'
    } else if d == 8 {
        '8'
    } else {
        '9'
    }
}

/// Appends `n`, written in base ten, to `out`.
pub fn push_decimal(out: &mut String, n: usize)
    ensures
        final(out)@ == old(out)@ + decimal(n as nat),
    decreases n,
{
    if n >= 10 {
        push_decimal(out, n / 10);
    }
    out.push(digit(n % 10));
    assert(final(out)@ =~= old(out)@ + decimal(n as nat));
}

/// `text` as it fits where `width` characters have room: `text` itself where
/// it takes no more than `width` bytes, `byte_len` being the number of its
/// bytes; else its first `width` characters and an ellipsis.
pub open spec fn shortened(text: Seq<char>, byte_len: nat, width: nat) -> Seq<char> {
    if byte_len <= width {
        text
    } else if width <= text.len() {
        text.take(width as int) + "…"@
    } else {
        text + "…"@
    }
}

/// `text`, cut to its first `width` characters and an ellipsis where it
/// takes more than `width` bytes.
pub fn shorten<'a>(text: &'a str, width: usize) -> (r: Cow<'a, str>)
    ensures
        r@ == shortened(text@, text.len() as nat, width as nat),
{
    if text.len() <= width {
        Cow::Borrowed(text)
    } else {
        let count = text.unicode_len();
        let head = if width <= count {
            text.substring_char(0, width)
        } else {
            text
        };
        Cow::Owned(head.to_owned().concat("…"))
    }
}

} // verus!
