use std::borrow::Cow;

use issue_graph::parse::{extract_url, relations, RelationKind};
use issue_graph::warning::Warning;

#[test]
fn test_extract_url() {
    // Note: Option<Cow<str>> compares equal if the strings are equal,
    // regardless of whether it's owned or borrowed.
    let repository = "https://github.com/foo/bar";

    // Issue number.
    assert_eq!(
        extract_url("#123", repository),
        Some(Cow::from("https://github.com/foo/bar/issues/123"))
    );
    // Issue number with leading space.
    assert_eq!(
        extract_url(" #123", repository),
        Some(Cow::from("https://github.com/foo/bar/issues/123"))
    );
    // Issue number with trailing space.
    assert_eq!(
        extract_url("#123 ", repository),
        Some(Cow::from("https://github.com/foo/bar/issues/123"))
    );
    // Trailing period.
    assert_eq!(
        extract_url("#123.", repository),
        Some(Cow::from("https://github.com/foo/bar/issues/123"))
    );
    // Owner/repo#number.
    assert_eq!(
        extract_url("aaa/bbb#123", repository),
        Some(Cow::from("https://github.com/aaa/bbb/issues/123"))
    );
    // Owner/repo#number with leading space.
    assert_eq!(
        extract_url(" aaa/bbb#123", repository),
        Some(Cow::from("https://github.com/aaa/bbb/issues/123"))
    );
    // Owner/repo#number with trailing space.
    assert_eq!(
        extract_url("aaa/bbb#123 ", repository),
        Some(Cow::from("https://github.com/aaa/bbb/issues/123"))
    );
    // Owner/repo#number with trailing period.
    assert_eq!(
        extract_url("aaa/bbb#123.", repository),
        Some(Cow::from("https://github.com/aaa/bbb/issues/123"))
    );
    // Full URL.
    let actual =
        extract_url("https://github.com/aaa/bbb/issues/123", repository);
    assert_eq!(
        actual,
        Some(Cow::from("https://github.com/aaa/bbb/issues/123"))
    );
    assert!(matches!(actual, Some(Cow::Borrowed(_))));
    // Full URL with trailing period.
    let actual =
        extract_url("https://github.com/aaa/bbb/issues/123.", repository);
    assert_eq!(
        actual,
        Some(Cow::from("https://github.com/aaa/bbb/issues/123"))
    );
    assert!(matches!(actual, Some(Cow::Borrowed(_))));
    // Full URL in markdown link.
    let actual = extract_url(
        "[text](https://github.com/aaa/bbb/issues/123)",
        repository,
    );
    assert_eq!(
        actual,
        Some(Cow::from("https://github.com/aaa/bbb/issues/123"))
    );
    assert!(matches!(actual, Some(Cow::Borrowed(_))));
}

#[test]
fn short_reference_goes_before_links() {
    let found = relations("depends on #12", "https://github.com/foo/bar", "item");
    assert_eq!(found.relations.len(), 1);
    assert_eq!(found.relations[0].kind, RelationKind::DependsOn);
    assert_eq!(found.relations[0].target, "https://github.com/foo/bar/issues/12");
    assert!(found.warnings.is_empty());
}

#[test]
fn reference_to_other_repository() {
    let found = relations("depends on aaa/bbb#5", "https://github.com/foo/bar", "item");
    assert_eq!(found.relations.len(), 1);
    assert_eq!(found.relations[0].kind, RelationKind::DependsOn);
    assert_eq!(found.relations[0].target, "https://github.com/aaa/bbb/issues/5");
    let elsewhere = relations("depends on aaa/bbb#5", "https://github.com/x/y", "item");
    assert_eq!(elsewhere.relations[0].target, "https://github.com/aaa/bbb/issues/5");
}

#[test]
fn reference_inside_a_word_is_malformed() {
    let found = relations("depends on x#123y", "https://github.com/foo/bar", "the item");
    assert!(found.relations.is_empty());
    assert_eq!(
        found.warnings,
        vec![Warning::MalformedReference {
            text: "x#123y".to_string(),
            context: "the item".to_string(),
        }]
    );
}

fn targets(text: &str, repository: &str) -> Vec<(RelationKind, String)> {
    relations(text, repository, "context")
        .relations
        .into_iter()
        .map(|relation| (relation.kind, relation.target.into_owned()))
        .collect()
}

const REPOSITORY: &str = "https://github.com/foo/bar";

#[test]
fn open_task_gives_incomplete() {
    assert_eq!(
        targets("- [ ] #7", REPOSITORY),
        vec![(RelationKind::TaskIncomplete, "https://github.com/foo/bar/issues/7".to_string())]
    );
}

#[test]
fn done_task_gives_complete() {
    assert_eq!(
        targets("- [x] aaa/bbb#2 and more", REPOSITORY),
        vec![(RelationKind::TaskComplete, "https://github.com/aaa/bbb/issues/2".to_string())]
    );
}

#[test]
fn capital_x_is_no_task() {
    let found = relations("- [X] #3", REPOSITORY, "context");
    assert!(found.relations.is_empty());
    assert!(found.warnings.is_empty());
}

#[test]
fn task_without_reference_is_silent() {
    let found = relations("- [ ] write the docs", REPOSITORY, "context");
    assert!(found.relations.is_empty());
    assert!(found.warnings.is_empty());
}

#[test]
fn task_text_is_trimmed() {
    assert_eq!(
        targets("   - [ ] \t https://github.com/a/b/pull/9  ", REPOSITORY),
        vec![(RelationKind::TaskIncomplete, "https://github.com/a/b/pull/9".to_string())]
    );
}

#[test]
fn depends_on_takes_colon_case_and_space() {
    for line in [
        "Depends on: #3",
        "DEPENDS ON #3",
        "depends   on:   #3",
        "depends\ton :#3",
        "  \u{a0}depends on #3",
        "dEpEnDs On:#3",
    ] {
        assert_eq!(
            targets(line, REPOSITORY),
            vec![(RelationKind::DependsOn, "https://github.com/foo/bar/issues/3".to_string())],
            "{line:?}"
        );
    }
}

#[test]
fn depends_on_must_start_the_line() {
    let found = relations("this depends on #3", REPOSITORY, "context");
    assert!(found.relations.is_empty());
    assert!(found.warnings.is_empty());
    let joined = relations("dependson #3", REPOSITORY, "context");
    assert!(joined.relations.is_empty());
    assert!(joined.warnings.is_empty());
}

#[test]
fn depends_on_nothing_is_silent() {
    for line in ["depends on", "depends on:", "depends on :   "] {
        let found = relations(line, REPOSITORY, "context");
        assert!(found.relations.is_empty(), "{line:?}");
        assert!(found.warnings.is_empty(), "{line:?}");
    }
}

#[test]
fn depends_on_words_is_malformed() {
    let found = relations("Depends on: the other team", REPOSITORY, "Some title");
    assert!(found.relations.is_empty());
    assert_eq!(
        found.warnings,
        vec![Warning::MalformedReference {
            text: "the other team".to_string(),
            context: "Some title".to_string(),
        }]
    );
}

#[test]
fn remainder_after_prefix_with_wide_characters() {
    let found = relations("depends on: \u{00e9}t\u{00e9} \u{4e2d}", REPOSITORY, "c");
    assert_eq!(
        found.warnings,
        vec![Warning::MalformedReference {
            text: "\u{00e9}t\u{00e9} \u{4e2d}".to_string(),
            context: "c".to_string(),
        }]
    );
    assert_eq!(
        targets("\u{2003}depends on \u{00e9} #4", REPOSITORY),
        vec![(RelationKind::DependsOn, "https://github.com/foo/bar/issues/4".to_string())]
    );
}

#[test]
fn email_is_no_reference() {
    let found = relations("depends on someone@github.com", REPOSITORY, "c");
    assert!(found.relations.is_empty());
    assert_eq!(found.warnings.len(), 1);
}

#[test]
fn link_elsewhere_is_no_reference() {
    assert_eq!(extract_url("https://example.org/foo/bar/issues/1", REPOSITORY), None);
    assert_eq!(extract_url("https://gitlab.com/github.com/", REPOSITORY), None);
    assert_eq!(extract_url("https://github.community/x", REPOSITORY), None);
    assert_eq!(extract_url("https://githubXcom/a/b/issues/1", REPOSITORY), None);
}

#[test]
fn first_link_into_github_is_taken() {
    let text = "see https://example.org/a then http://github.com/a/b/issues/1 and https://github.com/c/d/issues/2";
    assert_eq!(extract_url(text, REPOSITORY), Some(Cow::from("http://github.com/a/b/issues/1")));
}

#[test]
fn number_goes_before_shorthand_and_link() {
    let text = "https://github.com/c/d/issues/2 or aaa/bbb#5 or #6";
    assert_eq!(
        extract_url(text, REPOSITORY),
        Some(Cow::from("https://github.com/foo/bar/issues/6"))
    );
    let text = "https://github.com/c/d/issues/2 or aaa/bbb#5";
    assert_eq!(
        extract_url(text, REPOSITORY),
        Some(Cow::from("https://github.com/aaa/bbb/issues/5"))
    );
}

#[test]
fn number_bounded_by_word_characters_is_none() {
    for text in ["x#123", "#123x", "a_#1", "#1_", "-#1", "#1-", "#", "# 1", "#x1"] {
        assert_eq!(extract_url(text, REPOSITORY), None, "{text:?}");
    }
    for text in ["(#123)", "##5", "see #5, please", "\u{e9}#5"] {
        assert!(extract_url(text, REPOSITORY).is_some(), "{text:?}");
    }
}

#[test]
fn empty_text_gives_nothing() {
    assert_eq!(extract_url("", REPOSITORY), None);
    let found = relations("", REPOSITORY, "context");
    assert!(found.relations.is_empty());
    assert!(found.warnings.is_empty());
}

#[test]
fn relations_come_in_the_order_of_the_lines() {
    let body = "Intro\r\n- [x] #1\r\n\r\ndepends on: #2\nDepends on owner/repo#3\n- [ ] nothing here\ndepends on ???\n  - [ ] https://github.com/a/b/issues/4";
    let found = relations(body, REPOSITORY, "title");
    let got: Vec<(RelationKind, String)> = found
        .relations
        .into_iter()
        .map(|relation| (relation.kind, relation.target.into_owned()))
        .collect();
    assert_eq!(
        got,
        vec![
            (RelationKind::TaskComplete, "https://github.com/foo/bar/issues/1".to_string()),
            (RelationKind::DependsOn, "https://github.com/foo/bar/issues/2".to_string()),
            (RelationKind::DependsOn, "https://github.com/owner/repo/issues/3".to_string()),
            (RelationKind::TaskIncomplete, "https://github.com/a/b/issues/4".to_string()),
        ]
    );
    assert_eq!(
        found.warnings,
        vec![Warning::MalformedReference { text: "???".to_string(), context: "title".to_string() }]
    );
}

#[test]
fn extraction_is_deterministic() {
    let body = "depends on #2\n- [ ] a/b#3\ndepends on what\n";
    let first = relations(body, REPOSITORY, "title");
    let second = relations(body, REPOSITORY, "title");
    assert_eq!(first.relations, second.relations);
    assert_eq!(first.warnings, second.warnings);
}
