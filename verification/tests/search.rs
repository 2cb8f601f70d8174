use issue_graph::chart::NodeId;
use issue_graph::github::GithubIssueState;
use issue_graph::search::words;
use issue_graph::selection::Selection;

fn tokens(items: &[&str]) -> Vec<String> {
    items.iter().map(|item| item.to_string()).collect()
}

fn expected(tokens: &[String], filter: &str) -> bool {
    filter.split_whitespace().all(|key| tokens.iter().any(|token| token.contains(key)))
}

#[test]
fn words_are_what_std_splits() {
    for sample in [
        "",
        " ",
        "one",
        " one  two\tthree\n",
        "\u{3000}wide\u{a0}space\u{2003}",
        "a\u{200b}b c",
        "trailing ",
        "\r\n x \r\n",
    ] {
        let split: Vec<&str> = sample.split_whitespace().collect();
        assert_eq!(words(sample), split, "{sample:?}");
    }
}

#[test]
fn every_word_must_occur_in_some_token() {
    let some = tokens(&["fix", "the", "parser", "bug", "High"]);
    assert!(issue_graph::search::matches(&some, "parser"));
    assert!(issue_graph::search::matches(&some, "pars bug"));
    assert!(issue_graph::search::matches(&some, "  ug   he  "));
    assert!(issue_graph::search::matches(&some, ""));
    assert!(issue_graph::search::matches(&some, " \t "));
    assert!(!issue_graph::search::matches(&some, "parsers"));
    assert!(!issue_graph::search::matches(&some, "bug missing"));
    assert!(!issue_graph::search::matches(&some, "high"));
    assert!(issue_graph::search::matches(&some, "High H"));
    assert!(!issue_graph::search::matches(&[], "x"));
    assert!(issue_graph::search::matches(&[], ""));
    assert!(!issue_graph::search::matches(&some, "fixthe"));
}

#[test]
fn matching_is_what_std_finds() {
    let lists = [tokens(&[]), tokens(&["a"]), tokens(&["ab", "b\u{e9}c", ""]), tokens(&["x y", "z"])];
    for list in &lists {
        for filter in ["", "a", "b", "ab", "a b", "\u{e9}", "b\u{e9} c", "x y", "xy", " z "] {
            assert_eq!(issue_graph::search::matches(list, filter), expected(list, filter), "{list:?} {filter:?}");
        }
    }
}

#[test]
fn selection_holds_the_last_node_picked() {
    let mut selection = Selection::new();
    assert_eq!(selection.selected_node_id, None);
    selection.select_node(NodeId::new(3));
    assert_eq!(selection.selected_node_id, Some(NodeId::new(3)));
    selection.select_node(NodeId::new(4));
    assert_eq!(selection.selected_node_id, Some(NodeId::new(4)));
    selection.deselect_node(&NodeId::new(9));
    assert_eq!(selection.selected_node_id, None);
}

#[test]
fn state_and_id_helpers() {
    assert!(GithubIssueState::Open.is_open());
    assert!(!GithubIssueState::Closed.is_open());
    assert_eq!(NodeId::new(0).to_string(), "0");
    assert_eq!(NodeId::new(1234567890).to_string(), "1234567890");
    assert_eq!(NodeId::new(usize::MAX).to_string(), usize::MAX.to_string());
}

#[test]
fn tokens_are_lower_case_words_then_labels() {
    let labels = vec!["Bug".to_string(), "Top Urgent".to_string()];
    assert_eq!(
        issue_graph::search::searchable_tokens("  Fix the PARSER\u{a0}\u{c9}t\u{e9} ", &labels),
        vec!["fix", "the", "parser", "\u{e9}t\u{e9}", "Bug", "Top Urgent"]
    );
    assert_eq!(issue_graph::search::searchable_tokens("", &Vec::new()), Vec::<String>::new());
    assert_eq!(issue_graph::search::searchable_tokens(" \t", &labels), vec!["Bug", "Top Urgent"]);
}
