//! Issues as they are exported, as far as the graph reads them.

use vstd::prelude::*;
use vstd::string::*;

use crate::text::{find, first_occurrence};

verus! {

/// A point in time: nanoseconds since the start of 1970, UTC.
#[derive(Debug, Clone, Copy, PartialEq, Eq, Structural)]
pub struct Timestamp {
    pub unix_nanos: i128,
}

/// Whether an issue is open or closed.
#[derive(Debug, Default, Clone, Copy, PartialEq, Eq, Structural)]
pub enum GithubIssueState {
    #[default]
    Open,
    Closed,
}

impl GithubIssueState {
    pub fn is_open(self) -> (b: bool)
        ensures
            b == (self == GithubIssueState::Open),
    {
        match self {
            GithubIssueState::Open => true,
            GithubIssueState::Closed => false,
        }
    }
}

/// One issue or pull request.
#[derive(Debug)]
pub struct GithubIssue {
    /// The text of the issue, in which relations are looked for.
    pub body: String,
    /// The names of the labels of the issue.
    pub labels: Vec<String>,
    /// The titles of the projects that the issue is an item of.
    pub project_titles: Vec<String>,
    pub state: GithubIssueState,
    pub title: String,
    pub updated_at: Timestamp,
    pub url: String,
}

/// The part of `url` before the first "/issues", or, where that does not
/// occur, before the first "/pull".
pub open spec fn repository_of(url: Seq<char>) -> Option<Seq<char>> {
    match first_occurrence(url, "/issues"@, 0) {
        Some(i) => Some(url.take(i)),
        None => match first_occurrence(url, "/pull"@, 0) {
            Some(i) => Some(url.take(i)),
            None => None,
        },
    }
}

impl GithubIssue {
    /// Returns the repository part of the URL, e.g.
    /// "https://github.com/owner/repo", if found.
    pub fn repository(&self) -> (r: Option<&str>)
        ensures
            r.deep_view() == repository_of(self.url@),
    {
        let url = self.url.as_str();
        if let Some(i) = find(url, "/issues") {
            return Some(url.substring_char(0, i));
        }
        if let Some(i) = find(url, "/pull") {
            return Some(url.substring_char(0, i));
        }
        None
    }
}

} // verus!
