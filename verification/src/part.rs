//! Parts of a text, cut out at offsets that count the bytes of its
//! encoding.

use vstd::prelude::*;
use vstd::string::*;
use vstd::utf8::*;

verus! {

/// A stretch of a text, with what stands before it and after it.
#[derive(Debug, Clone, Copy, PartialEq, Eq)]
pub struct Part<'a> {
    pub before: &'a str,
    pub text: &'a str,
    pub after: &'a str,
}

/// A `Part` as a plain value.
pub struct PartView {
    pub before: Seq<char>,
    pub text: Seq<char>,
    pub after: Seq<char>,
}

impl<'a> View for Part<'a> {
    type V = PartView;

    open spec fn view(&self) -> PartView {
        PartView { before: self.before@, text: self.text@, after: self.after@ }
    }
}

impl<'a> DeepView for Part<'a> {
    type V = PartView;

    open spec fn deep_view(&self) -> PartView {
        self@
    }
}

/// Whether what stands before `part`, `part` itself and what stands after it
/// make up `text`.
pub open spec fn stands_in(part: PartView, text: Seq<char>) -> bool {
    part.before + part.text + part.after == text
}

/// The part of `text` from the byte at `start` to the byte at `end` of its
/// encoding, with what stands before it and after it. None, where `start`
/// lies after `end`, or one of them lies in the text where no character
/// starts, the end of the text apart.
pub open spec fn cut(text: Seq<char>, start: int, end: int) -> Option<PartView> {
    let bytes = encode_utf8(text);
    if start <= end && is_char_boundary(bytes, start) && is_char_boundary(bytes, end) {
        Some(
            PartView {
                before: decode_utf8(bytes.subrange(0, start)),
                text: decode_utf8(bytes.subrange(start, end)),
                after: decode_utf8(bytes.subrange(end, bytes.len() as int)),
            },
        )
    } else {
        None
    }
}

/// The part of `text` that a span cuts out: a span holds the offsets at
/// which the part starts and ends.
pub open spec fn cut_span(text: Seq<char>, span: (usize, usize)) -> Option<PartView> {
    cut(text, span.0 as int, span.1 as int)
}

/// The parts that the spans of the groups of a match cut out of `text`.
/// None, where there is no match, or a span cuts out no part.
pub open spec fn cut_groups(text: Seq<char>, found: Option<Seq<Option<(usize, usize)>>>) -> Option<
    Seq<Option<PartView>>,
> {
    match found {
        Some(spans) => if forall|i: int|
            0 <= i < spans.len() && (#[trigger] spans[i]) is Some ==> cut_span(
                text,
                spans[i]->0,
            ) is Some {
            Some(
                Seq::new(
                    spans.len(),
                    |i: int|
                        match spans[i] {
                            Some(span) => cut_span(text, span),
                            None => None,
                        },
                ),
            )
        } else {
            None
        },
        None => None,
    }
}

/// Cuts `text` at the bytes at `start` and `end` of its encoding.
pub fn part_at<'a>(text: &'a str, start: usize, end: usize) -> (r: Option<Part<'a>>)
    ensures
        r.deep_view() == cut(text@, start as int, end as int),
        r matches Some(part) ==> stands_in(part@, text@),
{
    if start > end || !text.is_char_boundary(start) || !text.is_char_boundary(end) {
        return None;
    }
    let ghost bytes = text.spec_bytes();
    proof {
        broadcast use group_utf8_lib;

        let rest = bytes.subrange(start as int, bytes.len() as int);
        if end < bytes.len() && start < end {
            is_char_boundary_iff_not_is_continuation_byte(bytes, end as int);
            assert(rest[end - start] == bytes[end as int]);
            is_char_boundary_iff_not_is_continuation_byte(rest, end - start);
        } else if start < end {
            assert(rest.len() == end - start);
            is_char_boundary_start_end_of_seq(rest);
        }
        assert(is_char_boundary(rest, end - start));
    }
    let (before, rest) = text.split_at(start);
    let (matched, after) = rest.split_at(end - start);
    proof {
        broadcast use group_utf8_lib;

        let rest_bytes = bytes.subrange(start as int, bytes.len() as int);
        assert(rest_bytes.subrange(0, end - start) =~= bytes.subrange(start as int, end as int));
        assert(rest_bytes.subrange(end - start, rest_bytes.len() as int) =~= bytes.subrange(
            end as int,
            bytes.len() as int,
        ));
        decode_utf8_split(bytes, start as int);
        decode_utf8_split(rest_bytes, end - start);
        assert(before@ == decode_utf8(bytes.subrange(0, start as int)));
        assert(matched@ == decode_utf8(bytes.subrange(start as int, end as int)));
        assert(after@ == decode_utf8(bytes.subrange(end as int, bytes.len() as int)));
        assert(text@ == decode_utf8(bytes));
        assert(before@ + matched@ + after@ =~= text@);
    }
    Some(Part { before, text: matched, after })
}

/// Cuts out of `text` what the spans of the groups of a match hold.
pub fn parts_at<'a>(text: &'a str, found: Option<Vec<Option<(usize, usize)>>>) -> (r: Option<
    Vec<Option<Part<'a>>>,
>)
    ensures
        r.deep_view() == cut_groups(text@, found.deep_view()),
        r matches Some(groups) ==> forall|i: int|
            0 <= i < groups.len() && (#[trigger] groups[i]) is Some ==> stands_in(
                groups[i]->0@,
                text@,
            ),
{
    match found {
        None => None,
        Some(spans) => {
            let ghost all = spans.deep_view();
            assert(all =~= spans@);
            let mut groups: Vec<Option<Part<'a>>> = Vec::new();
            let mut i: usize = 0;
            while i < spans.len()
                invariant
                    i <= spans.len(),
                    all == spans@,
                    found.deep_view() == Some(all),
                    groups.len() == i,
                    forall|k: int|
                        0 <= k < i && (#[trigger] all[k]) is Some ==> cut_span(
                            text@,
                            all[k]->0,
                        ) is Some,
                    forall|k: int|
                        0 <= k < i ==> (#[trigger] groups[k]).deep_view() == (match all[k] {
                            Some(span) => cut_span(text@, span),
                            None => None,
                        }),
                    forall|k: int|
                        0 <= k < i && (#[trigger] groups[k]) is Some ==> stands_in(
                            groups[k]->0@,
                            text@,
                        ),
                decreases spans.len() - i,
            {
                match spans[i] {
                    None => {
                        groups.push(None);
                    },
                    Some((start, end)) => {
                        match part_at(text, start, end) {
                            Some(part) => {
                                groups.push(Some(part));
                            },
                            None => {
                                assert(cut_span(text@, all[i as int]->0) is None);
                                return None;
                            },
                        }
                    },
                }
                i += 1;
            }
            assert(groups.deep_view() =~= cut_groups(text@, Some(all))->0);
            Some(groups)
        },
    }
}

} // verus!
