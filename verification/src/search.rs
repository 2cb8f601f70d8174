//! Searching nodes by words.

use vstd::prelude::*;
use vstd::string::*;

use crate::text::{chars_of, find, first_occurrence, is_whitespace, is_whitespace_char};

verus! {

/// The words of `s` from `start` on, where the characters from `start` up to
/// `i` are known to hold no white space.
pub open spec fn words_scan(s: Seq<char>, start: int, i: int) -> Seq<Seq<char>>
    decreases s.len() - i,
{
    if i < 0 || i >= s.len() {
        if 0 <= start < s.len() {
            seq![s.subrange(start, s.len() as int)]
        } else {
            seq![]
        }
    } else if is_whitespace(s[i]) {
        if start < i {
            seq![s.subrange(start, i)] + words_scan(s, i + 1, i + 1)
        } else {
            words_scan(s, i + 1, i + 1)
        }
    } else {
        words_scan(s, start, i + 1)
    }
}

/// The words of `s`: the longest stretches of characters that are not
/// white space, in order.
pub open spec fn words_of(s: Seq<char>) -> Seq<Seq<char>> {
    words_scan(s, 0, 0)
}

/// The words of `s`, in order.
pub fn words<'a>(s: &'a str) -> (r: Vec<&'a str>)
    ensures
        r.len() == words_of(s@).len(),
        forall|k: int| 0 <= k < r.len() ==> (#[trigger] r[k])@ == words_of(s@)[k],
{
    let v = chars_of(s);
    let mut r: Vec<&'a str> = Vec::new();
    let ghost mut done: Seq<Seq<char>> = seq![];
    let mut start: usize = 0;
    let mut i: usize = 0;
    while i < v.len()
        invariant
            v@ == s@,
            start <= i <= v.len(),
            r.len() == done.len(),
            forall|k: int| 0 <= k < r.len() ==> (#[trigger] r[k])@ == done[k],
            words_of(s@) == done + words_scan(s@, start as int, i as int),
        decreases v.len() - i,
    {
        if is_whitespace_char(v[i]) {
            if start < i {
                let word = s.substring_char(start, i);
                proof {
                    let rest = words_scan(s@, i + 1, i + 1);
                    assert(done + (seq![word@] + rest) =~= done.push(word@) + rest);
                    done = done.push(word@);
                }
                r.push(word);
            }
            start = i + 1;
        }
        i += 1;
    }
    if start < v.len() {
        let word = s.substring_char(start, v.len());
        proof {
            assert(done + seq![word@] =~= done.push(word@));
            done = done.push(word@);
        }
        r.push(word);
    } else {
        assert(done + Seq::<Seq<char>>::empty() =~= done);
    }
    r
}

/// Whether `key` occurs in `token`.
pub open spec fn occurs(token: Seq<char>, key: Seq<char>) -> bool {
    first_occurrence(token, key, 0) is Some
}

/// Whether `key` occurs in one of the first `count` of `tokens`.
pub open spec fn occurs_in_any(tokens: Seq<Seq<char>>, key: Seq<char>, count: int) -> bool {
    exists|t: int| 0 <= t < count && t < tokens.len() && occurs(#[trigger] tokens[t], key)
}

/// Whether each word of `filter` occurs in one of `tokens`.
pub open spec fn matches_tokens(tokens: Seq<Seq<char>>, filter: Seq<char>) -> bool {
    forall|k: int|
        0 <= k < words_of(filter).len() ==> occurs_in_any(
            tokens,
            #[trigger] words_of(filter)[k],
            tokens.len() as int,
        )
}

fn any_contains(tokens: &[String], key: &str) -> (b: bool)
    ensures
        b == occurs_in_any(tokens.deep_view(), key@, tokens.len() as int),
{
    let mut t: usize = 0;
    while t < tokens.len()
        invariant
            t <= tokens.len(),
            !occurs_in_any(tokens.deep_view(), key@, t as int),
        decreases tokens.len() - t,
    {
        assert(tokens.deep_view()[t as int] == tokens[t as int]@);
        if find(tokens[t].as_str(), key).is_some() {
            return true;
        }
        t += 1;
    }
    false
}

/// Whether each word of `filter` occurs in one of `tokens`. A filter
/// without words matches any tokens.
pub fn matches(tokens: &[String], filter: &str) -> (b: bool)
    ensures
        b == matches_tokens(tokens.deep_view(), filter@),
{
    let keys = words(filter);
    let mut k: usize = 0;
    while k < keys.len()
        invariant
            k <= keys.len(),
            keys.len() == words_of(filter@).len(),
            forall|j: int| 0 <= j < keys.len() ==> (#[trigger] keys[j])@ == words_of(filter@)[j],
            forall|j: int|
                0 <= j < k ==> occurs_in_any(
                    tokens.deep_view(),
                    #[trigger] words_of(filter@)[j],
                    tokens.len() as int,
                ),
        decreases keys.len() - k,
    {
        if !any_contains(tokens, keys[k]) {
            assert(!occurs_in_any(
                tokens.deep_view(),
                words_of(filter@)[k as int],
                tokens.len() as int,
            ));
            return false;
        }
        k += 1;
    }
    true
}

/// What `str::to_lowercase` makes of a string.
pub uninterp spec fn lowercase_of(text: Seq<char>) -> Seq<char>;

/// `str::to_lowercase`: the string in lower case, as `lowercase_of` names it.
pub assume_specification[ str::to_lowercase ](text: &str) -> (lower: String)
    ensures
        lower@ == lowercase_of(text@),
;

/// The tokens that a node is found by: the words of its text in lower case,
/// then its labels as they are.
pub fn searchable_tokens(text: &str, labels: &Vec<String>) -> (tokens: Vec<String>)
    ensures
        tokens.deep_view() == words_of(lowercase_of(text@)) + labels.deep_view(),
{
    let lower = text.to_lowercase();
    let found = words(lower.as_str());
    let ghost expected = words_of(lowercase_of(text@));
    let mut tokens: Vec<String> = Vec::new();
    let mut i: usize = 0;
    while i < found.len()
        invariant
            i <= found.len(),
            found.len() == expected.len(),
            forall|k: int| 0 <= k < found.len() ==> (#[trigger] found[k])@ == expected[k],
            tokens.len() == i,
            forall|k: int| 0 <= k < i ==> (#[trigger] tokens[k])@ == expected[k],
        decreases found.len() - i,
    {
        tokens.push(found[i].to_owned());
        i += 1;
    }
    let mut j: usize = 0;
    while j < labels.len()
        invariant
            j <= labels.len(),
            tokens.len() == expected.len() + j,
            forall|k: int| 0 <= k < expected.len() ==> (#[trigger] tokens[k])@ == expected[k],
            forall|k: int| 0 <= k < j ==> (#[trigger] tokens[expected.len() + k])@ == labels[k]@,
        decreases labels.len() - j,
    {
        tokens.push(labels[j].clone());
        j += 1;
    }
    assert(tokens.deep_view() =~= expected + labels.deep_view()) by {
        assert forall|k: int| 0 <= k < tokens.len() implies tokens.deep_view()[k] == (expected
            + labels.deep_view())[k] by {
            if k >= expected.len() {
                assert(tokens[expected.len() + (k - expected.len())]@ == labels[k
                    - expected.len()]@);
            }
        }
    }
    tokens
}

} // verus!
