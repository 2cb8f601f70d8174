//! What the crates `regex` and `linkify` find in a text. The result of a
//! search has a name here; each function below makes one search and hands out
//! what was found as it is.

use vstd::prelude::*;

verus! {

/// What `regex::Regex::find` reports for the expression compiled from
/// `pattern`, searching `text`: the offsets, in bytes, at which the leftmost
/// match starts and ends. `None` where nothing matches, and where `pattern`
/// does not compile.
pub uninterp spec fn regex_find(pattern: Seq<char>, text: Seq<char>) -> Option<(usize, usize)>;

/// What `regex::Regex::captures` reports for the expression compiled from
/// `pattern`, searching `text`: for each group of the leftmost match, the
/// whole match first, the offsets, in bytes, at which what the group matched
/// starts and ends, if the group took part. `None` where nothing matches, and
/// where `pattern` does not compile.
pub uninterp spec fn regex_captures(pattern: Seq<char>, text: Seq<char>) -> Option<
    Seq<Option<(usize, usize)>>,
>;

/// Compiles `pattern` with `regex::Regex::new` and searches `text` with
/// `Regex::find`. The result is the one that `regex_find` names.
#[verifier::external_body]
pub(crate) fn find_match(pattern: &str, text: &str) -> (r: Option<(usize, usize)>)
    ensures
        r == regex_find(pattern@, text@),
{
    regex::Regex::new(pattern).ok()?.find(text).map(|found| (found.start(), found.end()))
}

/// Compiles `pattern` with `regex::Regex::new` and searches `text` with
/// `Regex::captures`. The result is the one that `regex_captures` names.
#[verifier::external_body]
pub(crate) fn capture_groups(pattern: &str, text: &str) -> (r: Option<
    Vec<Option<(usize, usize)>>,
>)
    ensures
        r.deep_view() == regex_captures(pattern@, text@),
{
    let expression = regex::Regex::new(pattern).ok()?;
    let captures = expression.captures(text)?;
    Some(captures.iter().map(|group| group.map(|found| (found.start(), found.end()))).collect())
}

/// What a link in a text is.
#[derive(Debug, Clone, Copy, PartialEq, Eq, Structural)]
pub enum LinkKind {
    /// The address of a page.
    Url,
    /// The address of a mailbox.
    Email,
    /// Neither of these.
    Other,
}

/// A link in a text.
#[derive(Debug, Clone, Copy)]
pub struct Link<'a> {
    /// What the link is.
    pub kind: LinkKind,
    /// The characters of the link.
    pub text: &'a str,
}

/// A `Link` as a plain value.
pub struct LinkView {
    pub kind: LinkKind,
    pub text: Seq<char>,
}

impl<'a> View for Link<'a> {
    type V = LinkView;

    open spec fn view(&self) -> LinkView {
        LinkView { kind: self.kind, text: self.text@ }
    }
}

/// The plain values of a sequence of links.
pub open spec fn link_views(links: Seq<Link>) -> Seq<LinkView> {
    links.map_values(|l: Link| l@)
}

/// The links that `linkify::LinkFinder::links` finds in `text`, in the order
/// of the text, for a finder that `LinkFinder::new` made.
pub uninterp spec fn linkify_links(text: Seq<char>) -> Seq<LinkView>;

/// Makes a finder with `linkify::LinkFinder::new`, walks what its `links`
/// gives for `text`, and hands out kind and characters of each link. The
/// result is the one that `linkify_links` names.
#[verifier::external_body]
pub(crate) fn find_links<'a>(text: &'a str) -> (r: Vec<Link<'a>>)
    ensures
        link_views(r@) == linkify_links(text@),
{
    let finder = linkify::LinkFinder::new();
    finder.links(text).map(|link| Link {
        kind: match link.kind() {
            linkify::LinkKind::Url => LinkKind::Url,
            linkify::LinkKind::Email => LinkKind::Email,
            _ => LinkKind::Other,
        },
        text: link.as_str(),
    }).collect()
}

} // verus!
