use issue_graph::matcher::{Link, LinkKind};
use issue_graph::part::{part_at, Part};
use issue_graph::parse::resolve_url;
use issue_graph::reference::{
    check_cross_reference, check_short_reference, first_github_url, is_github,
    url_in_other_repository, url_in_same_repository,
};
use issue_graph::warning::Warning;

fn part<'a>(text: &'a str, from: usize, to: usize) -> Option<Part<'a>> {
    Some(Part { before: &text[..from], text: &text[from..to], after: &text[to..] })
}

#[test]
fn url_from_number() {
    let text = "see #12, please";
    assert_eq!(
        url_in_same_repository("https://github.com/foo/bar", Some(vec![part(text, 3, 8), part(text, 5, 7)])),
        Some("https://github.com/foo/bar/issues/12".to_string())
    );
    assert_eq!(
        url_in_same_repository("", Some(vec![None, part("#7", 1, 2)])),
        Some("/issues/7".to_string())
    );
    // Too few groups, a group that took no part, too many groups, no match.
    assert_eq!(url_in_same_repository("r", Some(vec![part(text, 3, 8)])), None);
    assert_eq!(url_in_same_repository("r", Some(vec![part(text, 3, 8), None])), None);
    assert_eq!(
        url_in_same_repository("r", Some(vec![part(text, 3, 8), part(text, 5, 7), part(text, 5, 7)])),
        None
    );
    assert_eq!(url_in_same_repository("r", None), None);
}

#[test]
fn number_must_follow_a_hash_outside_names() {
    for (text, from, to, expected) in [
        ("#12", 1, 3, true),
        ("(#12)", 2, 4, true),
        ("##12", 2, 4, true),
        ("\u{e9}#12\u{e9}", 3, 5, true),
        ("x#12", 2, 4, false),
        ("-#12", 2, 4, false),
        ("_#12", 2, 4, false),
        ("#12x", 1, 3, false),
        ("#12-", 1, 3, false),
        ("#123", 1, 3, false),
        ("12", 0, 2, false),
        ("a12", 1, 3, false),
        ("#1a", 1, 3, false),
        ("#", 1, 1, false),
    ] {
        let number = part(text, from, to).unwrap();
        assert_eq!(check_short_reference(&number), expected, "{text:?}");
        assert_eq!(
            url_in_same_repository("r", Some(vec![None, Some(number)])).is_some(),
            expected,
            "{text:?}"
        );
    }
}

fn cross(text: &str, owner: (usize, usize), repo: (usize, usize), number: (usize, usize)) -> bool {
    let owner = part(text, owner.0, owner.1).unwrap();
    let repo = part(text, repo.0, repo.1).unwrap();
    let number = part(text, number.0, number.1).unwrap();
    let checked = check_cross_reference(&owner, &repo, &number);
    let url = url_in_other_repository(Some(vec![None, Some(owner), Some(repo), Some(number)]));
    assert_eq!(url.is_some(), checked, "{text:?}");
    checked
}

#[test]
fn url_from_owner_repository_and_number() {
    let text = "see a-b/c_d#50.";
    assert_eq!(
        url_in_other_repository(Some(vec![
            part(text, 4, 14),
            part(text, 4, 7),
            part(text, 8, 11),
            part(text, 12, 14),
        ])),
        Some("https://github.com/a-b/c_d/issues/50".to_string())
    );
    assert_eq!(
        url_in_other_repository(Some(vec![part(text, 4, 14), part(text, 4, 7), None, part(text, 12, 14)])),
        None
    );
    assert_eq!(
        url_in_other_repository(Some(vec![part(text, 4, 14), part(text, 4, 7), part(text, 8, 11)])),
        None
    );
    assert_eq!(url_in_other_repository(None), None);
}

#[test]
fn owner_repository_and_number_must_be_joined() {
    assert!(cross("a/b#5", (0, 1), (2, 3), (4, 5)));
    assert!(cross(" a/b#5 ", (1, 2), (3, 4), (5, 6)));
    assert!(cross("x-a/b#5-", (0, 3), (4, 5), (6, 7)));
    assert!(cross("x-a/b#5", (1, 3), (4, 5), (6, 7)));
    assert!(cross("\u{e9}a/b#5\u{e9}", (2, 3), (4, 5), (6, 7)));
    // A word goes on before the owner, or after the number.
    assert!(!cross("xa/b#5", (1, 2), (3, 4), (5, 6)));
    assert!(!cross("a/b#5x", (0, 1), (2, 3), (4, 5)));
    assert!(!cross("a/b#5_", (0, 1), (2, 3), (4, 5)));
    assert!(!cross(" -a/b#5", (1, 3), (4, 5), (6, 7)));
    // Not the characters of a name or a number.
    assert!(!cross("a.c/b#5", (0, 3), (4, 5), (6, 7)));
    assert!(!cross("a/b.c#5", (0, 1), (2, 5), (6, 7)));
    assert!(!cross("a/b#5a", (0, 1), (2, 3), (4, 6)));
    assert!(!cross("/b#5", (0, 0), (1, 2), (3, 4)));
    assert!(!cross("a/#5", (0, 1), (2, 2), (3, 4)));
    assert!(!cross("a/b#", (0, 1), (2, 3), (4, 4)));
    // Not joined by `/` and `#`, or not next to each other.
    assert!(!cross("a-b#5", (0, 1), (2, 3), (4, 5)));
    assert!(!cross("a/b/5", (0, 1), (2, 3), (4, 5)));
    assert!(!cross("a//b#5", (0, 1), (3, 4), (5, 6)));
    assert!(!cross("a/b##5", (0, 1), (2, 3), (5, 6)));
    assert!(!cross("a/b#5", (0, 1), (0, 1), (4, 5)));
}

#[test]
fn prefix_decides_what_is_github() {
    assert!(is_github("https://github.com/"));
    assert!(is_github("http://github.com/a/b"));
    assert!(!is_github("https://github.com"));
    assert!(!is_github("ftp://github.com/"));
    assert!(!is_github("https://github.org/a"));
    assert!(!is_github(" https://github.com/a"));
    assert!(!is_github(""));
}

#[test]
fn first_url_link_into_github() {
    let links = vec![
        Link { kind: LinkKind::Email, text: "https://github.com/mail" },
        Link { kind: LinkKind::Other, text: "https://github.com/other" },
        Link { kind: LinkKind::Url, text: "https://example.org/" },
        Link { kind: LinkKind::Url, text: "https://github.com/a/b/issues/1" },
        Link { kind: LinkKind::Url, text: "https://github.com/a/b/issues/2" },
    ];
    assert_eq!(first_github_url(&links), Some("https://github.com/a/b/issues/1"));
    assert_eq!(first_github_url(&links[..3].to_vec()), None);
    assert_eq!(first_github_url(&Vec::new()), None);
}

#[test]
fn resolve_tells_empty_from_malformed() {
    assert_eq!(resolve_url("", "https://github.com/foo/bar", "c"), Ok(None));
    assert_eq!(
        resolve_url("#4", "https://github.com/foo/bar", "c").map(|url| url.map(|u| u.into_owned())),
        Ok(Some("https://github.com/foo/bar/issues/4".to_string()))
    );
    assert_eq!(
        resolve_url("four", "https://github.com/foo/bar", "c"),
        Err(Warning::MalformedReference { text: "four".to_string(), context: "c".to_string() })
    );
}

#[test]
fn words_that_introduce_a_dependency() {
    for (words, expected) in [
        ("depends on", true),
        ("Depends On:", true),
        ("DEPENDS\t\n ON  :  ", true),
        ("  depends on ", true),
        ("depends on :", true),
        ("dependson", false),
        ("depends on::", false),
        ("depends on x", false),
        ("depends on: x", false),
        ("depend on", false),
        ("depends of", false),
        ("depends\u{a0}on", false),
        ("depends on\u{a0}", false),
        ("\u{a0}depends on", false),
        ("depend\u{17f} on", false),
        ("depends", false),
        ("depends ", false),
        ("depends o", false),
        ("", false),
        (":", false),
    ] {
        let prefix = Part { before: "", text: words, after: "rest" };
        assert_eq!(issue_graph::reference::check_depends_on_prefix(&prefix), expected, "{words:?}");
        let pattern = regex::Regex::new(issue_graph::reference::DEPENDS_ON_PREFIX).unwrap();
        let whole = regex::Regex::new(&format!("{}\\z", issue_graph::reference::DEPENDS_ON_PREFIX)).unwrap();
        assert_eq!(whole.is_match(words), expected, "{words:?}");
        assert_eq!(pattern.find(words).map(|found| found.as_str() == words).unwrap_or(false), expected);
    }
    let inside = Part { before: "x", text: "depends on", after: "" };
    assert!(!issue_graph::reference::check_depends_on_prefix(&inside));
}

#[test]
fn parts_are_cut_where_characters_start() {
    let text = "a\u{e9}#12\u{4e2d}";
    assert_eq!(part_at(text, 3, 6), Some(Part { before: "a\u{e9}", text: "#12", after: "\u{4e2d}" }));
    assert_eq!(part_at(text, 0, 0), Some(Part { before: "", text: "", after: text }));
    assert_eq!(part_at(text, 9, 9), Some(Part { before: text, text: "", after: "" }));
    assert_eq!(part_at(text, 0, 9), Some(Part { before: "", text, after: "" }));
    assert_eq!(part_at(text, 1, 3), Some(Part { before: "a", text: "\u{e9}", after: "#12\u{4e2d}" }));
    // Inside a character, past the end, or the wrong way round.
    assert_eq!(part_at(text, 2, 3), None);
    assert_eq!(part_at(text, 3, 7), None);
    assert_eq!(part_at(text, 3, 8), None);
    assert_eq!(part_at(text, 3, 10), None);
    assert_eq!(part_at(text, 10, 10), None);
    assert_eq!(part_at(text, 4, 3), None);
    assert_eq!(part_at("", 0, 0), Some(Part { before: "", text: "", after: "" }));
    assert_eq!(part_at("", 0, 1), None);
}

#[test]
fn groups_are_cut_together() {
    let text = "\u{e9} #7";
    assert_eq!(
        issue_graph::part::parts_at(text, Some(vec![Some((2, 5)), None, Some((4, 5))])),
        Some(vec![
            Some(Part { before: "\u{e9}", text: " #7", after: "" }),
            None,
            Some(Part { before: "\u{e9} #", text: "7", after: "" }),
        ])
    );
    assert_eq!(issue_graph::part::parts_at(text, Some(vec![Some((2, 5)), Some((1, 5))])), None);
    assert_eq!(issue_graph::part::parts_at(text, Some(Vec::new())), Some(Vec::new()));
    assert_eq!(issue_graph::part::parts_at(text, None), None);
}
