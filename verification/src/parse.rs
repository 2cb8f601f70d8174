//! Relations between issues, read from the text of an issue.

use std::borrow::Cow;
use vstd::prelude::*;
use vstd::string::*;

use crate::matcher::{
    capture_groups, find_links, find_match, link_views, linkify_links, regex_captures, regex_find,
    LinkView,
};
use crate::part::{cut, cut_groups, part_at, parts_at, stands_in, PartView};
use crate::reference::{
    check_depends_on_prefix, first_github_link, first_github_url, groups_of_match,
    is_cross_reference, is_depends_on_prefix, is_github_url, is_short_reference,
    lemma_first_github_link, other_repository_url, same_repository_url, starts_with_depends_on,
    url_in_other_repository, url_in_same_repository, DEPENDS_ON_PREFIX, HASH_NUMBER,
    OWNER_REPO_NUMBER,
};
use crate::text::{
    lines, lines_of, skip_chars, starts_with, trim, trim_start, trimmed, trimmed_start,
};
use crate::warning::{warning_views, Warning, WarningView};

verus! {

/// The kind of a relation.
#[derive(Debug, Clone, Copy, PartialEq, Eq, Structural)]
pub enum RelationKind {
    DependsOn,
    TaskComplete,
    TaskIncomplete,
}

/// A relation between two items.
#[derive(Debug, PartialEq, Eq)]
pub struct Relation<'a> {
    /// The kind of relation.
    pub kind: RelationKind,
    /// The URL of the related item.
    pub target: Cow<'a, str>,
}

/// A `Relation` as a plain value.
pub struct RelationView {
    pub kind: RelationKind,
    pub target: Seq<char>,
}

impl<'a> View for Relation<'a> {
    type V = RelationView;

    open spec fn view(&self) -> RelationView {
        RelationView { kind: self.kind, target: self.target@ }
    }
}

/// The plain values of a sequence of relations.
pub open spec fn relation_views(relations: Seq<Relation>) -> Seq<RelationView> {
    relations.map_values(|r: Relation| r@)
}

/// The URL that `text` refers to, given the parts that the two patterns
/// hold of it and the links that the link finder found in it. A reference to
/// the same repository goes before one to another repository, and that
/// before a link.
pub open spec fn url_from_matches(
    text: Seq<char>,
    repository: Seq<char>,
    hash_number: Option<Seq<Option<PartView>>>,
    owner_repo_number: Option<Seq<Option<PartView>>>,
    links: Seq<LinkView>,
) -> Option<Seq<char>> {
    if text.len() == 0 {
        None
    } else if same_repository_url(repository, hash_number) is Some {
        same_repository_url(repository, hash_number)
    } else if other_repository_url(owner_repo_number) is Some {
        other_repository_url(owner_repo_number)
    } else {
        first_github_link(links, 0)
    }
}

/// The URL of the issue that `text` refers to, seen from the repository at
/// `repository`.
pub open spec fn extracted_url(text: Seq<char>, repository: Seq<char>) -> Option<Seq<char>> {
    url_from_matches(
        text,
        repository,
        cut_groups(text, regex_captures(HASH_NUMBER@, text)),
        cut_groups(text, regex_captures(OWNER_REPO_NUMBER@, text)),
        linkify_links(text),
    )
}

/// Whether `text` holds a reference to an issue of the same repository,
/// and `url` is the URL of that issue.
pub open spec fn refers_by_number(text: Seq<char>, repository: Seq<char>, url: Seq<char>) -> bool {
    exists|number: PartView|
        #[trigger] stands_in(number, text) && is_short_reference(number) && url == repository
            + "/issues/"@ + number.text
}

/// Whether `text` holds a reference to an issue of another repository, and
/// `url` is the URL of that issue.
pub open spec fn refers_by_names(text: Seq<char>, url: Seq<char>) -> bool {
    exists|owner: PartView, repo: PartView, number: PartView|
        #[trigger] stands_in(owner, text) && #[trigger] stands_in(repo, text)
            && #[trigger] stands_in(number, text) && is_cross_reference(owner, repo, number)
            && url == "https://github.com/"@ + owner.text + "/"@ + repo.text + "/issues/"@
            + number.text
}

/// The view of an optional string.
pub open spec fn optional_text(url: Option<Cow<str>>) -> Option<Seq<char>> {
    match url {
        Some(u) => Some(u@),
        None => None,
    }
}

/// The URL of the issue that `text` refers to, seen from the repository at
/// `repository`: by number, by owner, repository and number, or by the first
/// link into `github.com`, whichever is found first in this order.
pub fn extract_url<'a>(text: &'a str, repository: &str) -> (r: Option<Cow<'a, str>>)
    ensures
        optional_text(r) == extracted_url(text@, repository@),
        r matches Some(url) ==> refers_by_number(text@, repository@, url@) || refers_by_names(
            text@,
            url@,
        ) || is_github_url(url@),
{
    if text.is_empty() {
        return None;
    }
    let by_number = parts_at(text, capture_groups(HASH_NUMBER, text));
    let ghost groups = by_number.deep_view();
    if let Some(url) = url_in_same_repository(repository, by_number) {
        proof {
            let number = groups->0[1]->0;
            assert(by_number->0[1] is Some);
            assert(groups_of_match(groups->0, 1)->0[0] == number);
            assert(stands_in(number, text@));
        }
        return Some(Cow::Owned(url));
    }
    let by_names = parts_at(text, capture_groups(OWNER_REPO_NUMBER, text));
    let ghost groups = by_names.deep_view();
    if let Some(url) = url_in_other_repository(by_names) {
        proof {
            let parts = groups_of_match(groups->0, 3)->0;
            assert(by_names->0[1] is Some && by_names->0[2] is Some && by_names->0[3] is Some);
            assert(parts[0] == groups->0[1]->0 && parts[1] == groups->0[2]->0 && parts[2]
                == groups->0[3]->0);
            assert(stands_in(parts[0], text@) && stands_in(parts[1], text@) && stands_in(
                parts[2],
                text@,
            ));
        }
        return Some(Cow::Owned(url));
    }
    let links = find_links(text);
    proof {
        lemma_first_github_link(link_views(links@), 0);
    }
    match first_github_url(&links) {
        Some(url) => Some(Cow::Borrowed(url)),
        None => None,
    }
}

/// What `extract_url` gives for `text`, or the warning that is due where
/// `text` holds something and no URL is found in it.
pub open spec fn resolved_url(text: Seq<char>, repository: Seq<char>, context: Seq<char>) -> Result<
    Option<Seq<char>>,
    WarningView,
> {
    match extracted_url(text, repository) {
        Some(url) => Ok(Some(url)),
        None => if text.len() == 0 {
            Ok(None)
        } else {
            Err(WarningView::MalformedReference { text, context })
        },
    }
}

/// The URL of the issue that `text` refers to. Where `text` is not empty and
/// no URL is found in it, the warning to report; `context` names the item that
/// holds `text`.
pub fn resolve_url<'a>(text: &'a str, repository: &str, context: &str) -> (r: Result<
    Option<Cow<'a, str>>,
    Warning,
>)
    ensures
        match r {
            Ok(url) => resolved_url(text@, repository@, context@) == Ok::<
                Option<Seq<char>>,
                WarningView,
            >(optional_text(url)),
            Err(warning) => resolved_url(text@, repository@, context@) == Err::<
                Option<Seq<char>>,
                WarningView,
            >(warning@),
        },
{
    let url = extract_url(text, repository);
    if url.is_none() && !text.is_empty() {
        return Err(
            Warning::MalformedReference { text: text.to_owned(), context: context.to_owned() },
        );
    }
    Ok(url)
}

/// The kind of reference that a line makes, and the part of the line in
/// which the URL is looked for: what follows the box of a task, or what
/// follows the words that introduce a dependency.
pub open spec fn line_reference(line: Seq<char>) -> Option<(RelationKind, Seq<char>)> {
    let line = trimmed_start(line);
    if "- [ ]"@.is_prefix_of(line) {
        Some((RelationKind::TaskIncomplete, trimmed(line.skip(5))))
    } else if "- [x]"@.is_prefix_of(line) {
        Some((RelationKind::TaskComplete, trimmed(line.skip(5))))
    } else {
        match regex_find(DEPENDS_ON_PREFIX@, line) {
            Some((start, end)) => match cut(line, start as int, end as int) {
                Some(prefix) => if is_depends_on_prefix(prefix) {
                    Some((RelationKind::DependsOn, prefix.after))
                } else {
                    None
                },
                None => None,
            },
            None => None,
        }
    }
}

/// The relation that a line states.
pub open spec fn line_relation(line: Seq<char>, repository: Seq<char>) -> Option<RelationView> {
    match line_reference(line) {
        Some((kind, text)) => match extracted_url(text, repository) {
            Some(target) => Some(RelationView { kind, target }),
            None => None,
        },
        None => None,
    }
}

/// The warning that a line gives rise to: a dependency is introduced, and
/// what follows is not empty and holds no URL.
pub open spec fn line_warning(line: Seq<char>, repository: Seq<char>, context: Seq<char>) -> Option<
    WarningView,
> {
    match line_reference(line) {
        Some((RelationKind::DependsOn, text)) => match resolved_url(text, repository, context) {
            Ok(_) => None,
            Err(warning) => Some(warning),
        },
        _ => None,
    }
}

/// The relations that `lines` state, in the order of the lines.
pub open spec fn relations_of_lines(lines: Seq<Seq<char>>, repository: Seq<char>) -> Seq<
    RelationView,
>
    decreases lines.len(),
{
    if lines.len() == 0 {
        seq![]
    } else {
        let before = relations_of_lines(lines.drop_last(), repository);
        match line_relation(lines.last(), repository) {
            Some(relation) => before.push(relation),
            None => before,
        }
    }
}

/// The warnings that `lines` give rise to, in the order of the lines.
pub open spec fn warnings_of_lines(
    lines: Seq<Seq<char>>,
    repository: Seq<char>,
    context: Seq<char>,
) -> Seq<WarningView>
    decreases lines.len(),
{
    if lines.len() == 0 {
        seq![]
    } else {
        let before = warnings_of_lines(lines.drop_last(), repository, context);
        match line_warning(lines.last(), repository, context) {
            Some(warning) => before.push(warning),
            None => before,
        }
    }
}

/// The relations that the text of an item states.
pub open spec fn relations_in(text: Seq<char>, repository: Seq<char>) -> Seq<RelationView> {
    relations_of_lines(lines_of(text), repository)
}

/// The warnings that the text of an item gives rise to.
pub open spec fn warnings_in(text: Seq<char>, repository: Seq<char>, context: Seq<char>) -> Seq<
    WarningView,
> {
    warnings_of_lines(lines_of(text), repository, context)
}

/// The relation that `line` states, or the warning that it gives rise to.
pub fn relation_of_line<'a>(line: &'a str, repository: &str, context: &str) -> (r: Result<
    Option<Relation<'a>>,
    Warning,
>)
    ensures
        match r {
            Ok(Some(relation)) => line_relation(line@, repository@) == Some(relation@)
                && line_warning(line@, repository@, context@) is None,
            Ok(None) => line_relation(line@, repository@) is None && line_warning(
                line@,
                repository@,
                context@,
            ) is None,
            Err(warning) => line_relation(line@, repository@) is None && line_warning(
                line@,
                repository@,
                context@,
            ) == Some(warning@),
        },
        r matches Ok(Some(relation)) && relation.kind == RelationKind::DependsOn
            ==> starts_with_depends_on(trimmed_start(line@)),
        r is Err ==> starts_with_depends_on(trimmed_start(line@)),
{
    // Trim since it may be arbitrarily indented.
    let line = trim_start(line);
    let open_task = starts_with(line, "- [ ]");
    if open_task || starts_with(line, "- [x]") {
        let kind = if open_task {
            RelationKind::TaskIncomplete
        } else {
            RelationKind::TaskComplete
        };
        proof {
            reveal_strlit("- [ ]");
            reveal_strlit("- [x]");
        }
        let task_text = trim(skip_chars(line, 5));
        match extract_url(task_text, repository) {
            Some(target) => Ok(Some(Relation { kind, target })),
            None => Ok(None),
        }
    } else {
        match find_match(DEPENDS_ON_PREFIX, line) {
            Some((start, end)) => {
                let prefix = match part_at(line, start, end) {
                    Some(prefix) => prefix,
                    None => {
                        return Ok(None);
                    },
                };
                if !check_depends_on_prefix(&prefix) {
                    return Ok(None);
                }
                assert(line@ == prefix@.text + prefix@.after) by {
                    assert(prefix@.before + prefix@.text =~= prefix@.text);
                }
                // Depends on link.  What follows "Depends on:" is the text
                // of the dependency.
                match resolve_url(prefix.after, repository, context) {
                    Ok(Some(target)) => {
                        Ok(Some(Relation { kind: RelationKind::DependsOn, target }))
                    },
                    Ok(None) => Ok(None),
                    Err(warning) => Err(warning),
                }
            },
            None => Ok(None),
        }
    }
}

/// What the text of an item states of other items.
#[derive(Debug)]
pub struct Extraction<'a> {
    /// The relations, in the order of the lines that state them.
    pub relations: Vec<Relation<'a>>,
    /// The warnings, in the order of the lines that give rise to them.
    pub warnings: Vec<Warning>,
}

/// Reads the relations that `text` states, line by line. A line that starts
/// with the box of a task, open or done, gives a task; a line that starts with
/// the words "depends on" gives a dependency. `repository` is the URL of the
/// repository that `text` belongs to, `context` the title of its item.
pub fn relations<'t>(text: &'t str, repository: &str, context: &str) -> (r: Extraction<'t>)
    ensures
        relation_views(r.relations@) == relations_in(text@, repository@),
        warning_views(r.warnings@) == warnings_in(text@, repository@, context@),
{
    let all = lines(text);
    let ghost line_texts = lines_of(text@);
    let mut found: Vec<Relation<'t>> = Vec::new();
    let mut warnings: Vec<Warning> = Vec::new();
    let mut i: usize = 0;
    while i < all.len()
        invariant
            i <= all.len(),
            all.len() == line_texts.len(),
            forall|k: int| 0 <= k < all.len() ==> (#[trigger] all[k])@ == line_texts[k],
            relation_views(found@) == relations_of_lines(line_texts.take(i as int), repository@),
            warning_views(warnings@) == warnings_of_lines(
                line_texts.take(i as int),
                repository@,
                context@,
            ),
        decreases all.len() - i,
    {
        let ghost found_before = found@;
        let ghost warnings_before = warnings@;
        proof {
            assert(line_texts.take(i + 1).drop_last() =~= line_texts.take(i as int));
            assert(line_texts.take(i + 1).last() == all[i as int]@);
        }
        match relation_of_line(all[i], repository, context) {
            Ok(Some(relation)) => {
                found.push(relation);
                assert(relation_views(found@) =~= relation_views(found_before).push(relation@));
            },
            Ok(None) => {},
            Err(warning) => {
                warnings.push(warning);
                assert(warning_views(warnings@) =~= warning_views(warnings_before).push(
                    warning@,
                ));
            },
        }
        i += 1;
    }
    assert(line_texts.take(i as int) =~= line_texts);
    Extraction { relations: found, warnings }
}

/// Reading the same text twice gives the same relations and the same
/// warnings: both are a function of the text, the repository and the context.
pub proof fn lemma_relations_deterministic(
    first: Extraction,
    second: Extraction,
    text: Seq<char>,
    repository: Seq<char>,
    context: Seq<char>,
)
    requires
        relation_views(first.relations@) == relations_in(text, repository),
        warning_views(first.warnings@) == warnings_in(text, repository, context),
        relation_views(second.relations@) == relations_in(text, repository),
        warning_views(second.warnings@) == warnings_in(text, repository, context),
    ensures
        relation_views(first.relations@) == relation_views(second.relations@),
        warning_views(first.warnings@) == warning_views(second.warnings@),
{
}

} // verus!
