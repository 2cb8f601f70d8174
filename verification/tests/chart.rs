use indexmap::IndexSet;

use issue_graph::builder::FlowchartBuilder;
use issue_graph::chart::{Filter, Flowchart, Node, NodeId};
use issue_graph::github::GithubIssueState::{self, Closed, Open};
use issue_graph::github::Timestamp;

fn url(n: usize) -> String {
    format!("https://github.com/o/r/issues/{n}")
}

fn node(id: usize, state: GithubIssueState, depends_on: &[usize]) -> Node {
    Node {
        id: NodeId::new(id),
        text: format!("Issue {id}"),
        url: url(id),
        state,
        labels: vec!["bug".to_string()],
        project_titles: ["Roadmap".to_string()].into_iter().collect(),
        depends_on_urls: depends_on.iter().map(|n| url(*n)).collect(),
        depends_on_ids: IndexSet::new(),
        depended_on_by_ids: IndexSet::new(),
        updated_at: Timestamp { unix_nanos: 1_000 },
    }
}

fn chart_of(nodes: Vec<Node>, show_all: bool) -> Flowchart {
    let mut builder = FlowchartBuilder::new(
        String::new(),
        show_all,
        None,
        Some(Timestamp { unix_nanos: 2_000 }),
    );
    for node in nodes {
        builder.insert(node);
    }
    builder.build()
}

fn ids(set: &IndexSet<usize>) -> Vec<usize> {
    let mut ids: Vec<usize> = set.iter().copied().collect();
    ids.sort();
    ids
}

fn all_nodes(chart: &Flowchart) -> Vec<&Node> {
    let mut nodes = Vec::new();
    let mut index = 0;
    while let Some(node) = chart.get_node_by_index(index) {
        nodes.push(node);
        index += 1;
    }
    nodes
}

#[test]
fn node_id_holds_its_number() {
    assert_eq!(NodeId::new(7), NodeId(7));
    assert_eq!(NodeId::new(7).0, 7);
    assert_ne!(NodeId::new(7), NodeId::new(8));
}

#[test]
fn build_resolves_forward_and_backward() {
    // 1 depends on 2 and 3; 2 depends on 3; 3 on nothing. 1 comes first.
    let chart = chart_of(vec![node(1, Open, &[2, 3]), node(2, Open, &[3]), node(3, Open, &[])], false);
    let first = chart.get_node_by_id(&NodeId::new(1)).unwrap();
    let second = chart.get_node_by_id(&NodeId::new(2)).unwrap();
    let third = chart.get_node_by_id(&NodeId::new(3)).unwrap();
    assert_eq!(ids(&first.depends_on_ids), vec![2, 3]);
    assert_eq!(ids(&second.depends_on_ids), vec![3]);
    assert_eq!(ids(&third.depends_on_ids), Vec::<usize>::new());
    assert_eq!(ids(&first.depended_on_by_ids), Vec::<usize>::new());
    assert_eq!(ids(&second.depended_on_by_ids), vec![1]);
    assert_eq!(ids(&third.depended_on_by_ids), vec![1, 2]);
    assert_eq!(third.depended_on_by_ids.len(), 2);
}

#[test]
fn unresolved_url_stays_and_gives_no_id() {
    let chart = chart_of(vec![node(1, Open, &[9, 2]), node(2, Open, &[])], false);
    let first = chart.get_node_by_id(&NodeId::new(1)).unwrap();
    assert_eq!(ids(&first.depends_on_ids), vec![2]);
    let raw: Vec<&str> = first.depends_on_urls.iter().map(String::as_str).collect();
    assert_eq!(raw, vec![url(9).as_str(), url(2).as_str()]);
}

#[test]
fn no_id_dangles_after_build() {
    let chart = chart_of(
        vec![node(4, Open, &[5, 6, 7]), node(5, Closed, &[4]), node(6, Open, &[6]), node(8, Open, &[1])],
        false,
    );
    let nodes = all_nodes(&chart);
    let present: Vec<usize> = nodes.iter().map(|node| node.id.0).collect();
    assert_eq!(present, vec![4, 5, 6, 8]);
    for node in &nodes {
        for id in node.depends_on_ids.iter().chain(node.depended_on_by_ids.iter()) {
            assert!(present.contains(id), "{id} dangles at {}", node.id.0);
        }
    }
}

#[test]
fn reverse_adjacency_is_consistent() {
    let chart = chart_of(
        vec![node(1, Open, &[2, 3, 4]), node(2, Open, &[1]), node(3, Open, &[3, 9]), node(4, Open, &[])],
        false,
    );
    let nodes = all_nodes(&chart);
    let mut edges = 0;
    for a in &nodes {
        for b in &nodes {
            if a.depends_on_ids.contains(&b.id.0) {
                assert!(b.depended_on_by_ids.contains(&a.id.0));
                edges += 1;
            }
        }
    }
    assert_eq!(edges, 5);
}

#[test]
fn insert_drops_what_a_node_brings_resolved() {
    let mut stray = node(1, Open, &[]);
    stray.depends_on_ids.insert(77);
    stray.depended_on_by_ids.insert(78);
    let chart = chart_of(vec![stray], false);
    let first = chart.get_node_by_id(&NodeId::new(1)).unwrap();
    assert!(first.depends_on_ids.is_empty());
    assert!(first.depended_on_by_ids.is_empty());
}

#[test]
fn last_node_with_a_url_is_the_target() {
    let mut twin = node(3, Open, &[]);
    twin.url = url(2);
    let chart = chart_of(vec![node(1, Open, &[2]), node(2, Open, &[]), twin], false);
    assert_eq!(chart.get_node_by_url(&url(2)).unwrap().id, NodeId::new(3));
    let first = chart.get_node_by_id(&NodeId::new(1)).unwrap();
    assert_eq!(ids(&first.depends_on_ids), vec![3]);
    assert_eq!(ids(&chart.get_node_by_id(&NodeId::new(3)).unwrap().depended_on_by_ids), vec![1]);
    assert!(chart.get_node_by_id(&NodeId::new(2)).unwrap().depended_on_by_ids.is_empty());
    assert_eq!(chart.num_nodes(), 2);
}

#[test]
fn node_without_url_is_no_target() {
    let mut nameless = node(2, Open, &[]);
    nameless.url = String::new();
    let mut dependent = node(1, Open, &[]);
    dependent.depends_on_urls.insert(String::new());
    let chart = chart_of(vec![dependent, nameless], false);
    assert!(chart.get_node_by_url("").is_none());
    assert!(chart.get_node_by_id(&NodeId::new(1)).unwrap().depends_on_ids.is_empty());
    assert!(chart.get_node_by_id(&NodeId::new(2)).unwrap().depended_on_by_ids.is_empty());
    assert_eq!(chart.num_nodes(), 1);
    assert_eq!(all_nodes(&chart).len(), 2);
}

#[test]
fn lookups() {
    let chart = chart_of(vec![node(5, Open, &[]), node(3, Open, &[])], false);
    assert_eq!(chart.num_nodes(), 2);
    assert_eq!(chart.get_node_by_index(0).unwrap().id, NodeId::new(5));
    assert_eq!(chart.get_node_by_index(1).unwrap().id, NodeId::new(3));
    assert!(chart.get_node_by_index(2).is_none());
    assert_eq!(chart.get_node_by_id(&NodeId::new(3)).unwrap().text, "Issue 3");
    assert!(chart.get_node_by_id(&NodeId::new(4)).is_none());
    assert_eq!(chart.get_node_by_url(&url(5)).unwrap().id, NodeId::new(5));
    assert!(chart.get_node_by_url(&url(4)).is_none());
}

fn filter(project: Option<&str>, after: Option<i128>) -> Filter {
    Filter {
        include_project_only: project.map(str::to_string),
        updated_after: after.map(|unix_nanos| Timestamp { unix_nanos }),
    }
}

#[test]
fn filter_by_project() {
    let titles: IndexSet<String> = ["Roadmap".to_string(), "Other".to_string()].into_iter().collect();
    assert!(filter(None, None).matches_project(&titles));
    assert!(filter(Some("Other"), None).matches_project(&titles));
    assert!(!filter(Some("other"), None).matches_project(&titles));
    assert!(!filter(Some("Road"), None).matches_project(&titles));
    assert!(!filter(Some("Roadmap"), None).matches_project(&IndexSet::new()));
}

#[test]
fn filter_by_time() {
    let at = Timestamp { unix_nanos: 1_000 };
    assert!(filter(None, Some(999)).matches_updated_after(&at));
    assert!(filter(None, Some(1_000)).matches_updated_after(&at));
    assert!(!filter(None, Some(1_001)).matches_updated_after(&at));
    assert!(!filter(None, None).matches_updated_after(&at));
    assert!(filter(None, Some(i128::MIN)).matches_updated_after(&Timestamp { unix_nanos: -5 }));
}

#[test]
fn node_passes_when_all_three_hold() {
    let recent = filter(Some("Roadmap"), Some(1_000));
    let stale = filter(Some("Roadmap"), Some(1_001));
    let connected = node(1, Open, &[2]);
    assert!(connected.is_open());
    assert!(!connected.blocks_anything());
    assert!(connected.passes_filter(&recent));
    assert!(connected.passes_filter(&stale));
    assert!(!connected.passes_filter(&filter(Some("Elsewhere"), Some(1_000))));
    let closed = node(1, Closed, &[2]);
    assert!(!closed.is_open());
    assert!(closed.passes_filter(&recent));
    assert!(!closed.passes_filter(&stale));
    assert!(!closed.passes_filter(&filter(None, None)));
    let isolated = node(1, Open, &[]);
    assert!(!isolated.passes_filter(&recent));
    let mut blocking = node(1, Open, &[]);
    blocking.depended_on_by_ids.insert(2);
    assert!(blocking.blocks_anything());
    assert!(blocking.passes_filter(&recent));
}

#[test]
fn prune_removes_what_fails_the_filter() {
    // 2 is closed and stale, 4 is isolated.
    let mut chart = chart_of(
        vec![node(1, Open, &[2]), node(2, Closed, &[3]), node(3, Open, &[]), node(4, Open, &[])],
        false,
    );
    assert_eq!(chart.num_nodes(), 4);
    chart.prune();
    let left: Vec<usize> = all_nodes(&chart).iter().map(|node| node.id.0).collect();
    assert_eq!(left, vec![1, 3]);
    assert!(chart.get_node_by_id(&NodeId::new(2)).is_none());
    assert!(chart.get_node_by_url(&url(2)).is_none());
    assert!(chart.get_node_by_url(&url(4)).is_none());
    assert_eq!(chart.get_node_by_url(&url(3)).unwrap().id, NodeId::new(3));
    assert_eq!(chart.num_nodes(), 2);
    // The nodes that stay are as they were.
    assert_eq!(ids(&chart.get_node_by_id(&NodeId::new(1)).unwrap().depends_on_ids), vec![2]);
    assert_eq!(ids(&chart.get_node_by_id(&NodeId::new(3)).unwrap().depended_on_by_ids), vec![2]);
}

#[test]
fn prune_twice_is_prune_once() {
    let mut chart = chart_of(
        vec![node(1, Open, &[2]), node(2, Closed, &[3]), node(3, Open, &[]), node(4, Open, &[])],
        false,
    );
    chart.prune();
    let once: Vec<usize> = all_nodes(&chart).iter().map(|node| node.id.0).collect();
    let count = chart.num_nodes();
    chart.prune();
    let twice: Vec<usize> = all_nodes(&chart).iter().map(|node| node.id.0).collect();
    assert_eq!(once, twice);
    assert_eq!(count, chart.num_nodes());
}

#[test]
fn prune_keeps_all_where_all_is_shown() {
    let mut chart = chart_of(vec![node(1, Open, &[]), node(2, Closed, &[])], true);
    chart.prune();
    assert_eq!(all_nodes(&chart).len(), 2);
    assert_eq!(chart.num_nodes(), 2);
}

#[test]
fn builder_knows_the_ids_it_holds() {
    let mut builder = FlowchartBuilder::new(String::new(), false, None, None);
    assert!(!builder.contains_id(&NodeId::new(1)));
    builder.insert(node(1, Open, &[]));
    assert!(builder.contains_id(&NodeId::new(1)));
    assert!(!builder.contains_id(&NodeId::new(2)));
}

#[test]
fn builder_knows_the_urls_it_holds() {
    let mut builder = FlowchartBuilder::new(String::new(), false, None, None);
    assert!(!builder.contains_url(&url(1)));
    builder.insert(node(1, Open, &[2]));
    assert!(builder.contains_url(&url(1)));
    assert!(!builder.contains_url(&url(2)));
    assert!(!builder.contains_url(""));
}
