//! The graph of issues and the relations between them.

use indexmap::{IndexMap, IndexSet};
use vstd::prelude::*;
use vstd::string::*;

use crate::github::{GithubIssueState, Timestamp};
use crate::ordered::{
    id_set_is_empty, id_set_members, node_map_get, node_map_get_index, node_map_keys,
    node_map_nodes, node_map_retain_passing, select, string_set_contains, string_set_items,
    string_set_len, url_map_entries, url_map_get, url_map_len, url_map_retain_known,
};
use crate::text::{decimal, push_decimal};

verus! {

/// Identifies a node for the lifetime of one graph.
#[derive(Debug, Clone, Copy, PartialEq, Eq, Hash, Structural)]
pub struct NodeId(pub usize);

impl NodeId {
    pub fn new(id: usize) -> (r: Self)
        ensures
            r.0 == id,
    {
        Self(id)
    }

    /// The id as it is written in a flowchart: its number in base ten.
    pub fn to_string(&self) -> (text: String)
        ensures
            text@ == decimal(self.0 as nat),
    {
        let mut text = String::new();
        push_decimal(&mut text, self.0);
        text
    }
}

/// One issue in the graph.
#[derive(Debug)]
pub struct Node {
    pub id: NodeId,
    /// The title to display.
    pub text: String,
    /// The URL of the issue; empty where it has none.
    pub url: String,
    pub state: GithubIssueState,
    pub labels: Vec<String>,
    /// The titles of the projects that the issue belongs to.
    pub project_titles: IndexSet<String>,
    /// The URLs that the issue says it depends on, as they were read.
    pub depends_on_urls: IndexSet<String>,
    /// The ids of the nodes that this one depends on.
    pub depends_on_ids: IndexSet<usize>,
    /// The ids of the nodes that depend on this one.
    pub depended_on_by_ids: IndexSet<usize>,
    pub updated_at: Timestamp,
}

/// A `Node` as a plain value.
pub struct NodeView {
    pub id: NodeId,
    pub text: Seq<char>,
    pub url: Seq<char>,
    pub state: GithubIssueState,
    pub labels: Seq<Seq<char>>,
    pub project_titles: Seq<Seq<char>>,
    pub depends_on_urls: Seq<Seq<char>>,
    pub depends_on_ids: Set<usize>,
    pub depended_on_by_ids: Set<usize>,
    pub updated_at: Timestamp,
}

impl View for Node {
    type V = NodeView;

    open spec fn view(&self) -> NodeView {
        NodeView {
            id: self.id,
            text: self.text@,
            url: self.url@,
            state: self.state,
            labels: self.labels.deep_view(),
            project_titles: string_set_items(self.project_titles),
            depends_on_urls: string_set_items(self.depends_on_urls),
            depends_on_ids: id_set_members(self.depends_on_ids),
            depended_on_by_ids: id_set_members(self.depended_on_by_ids),
            updated_at: self.updated_at,
        }
    }
}

impl DeepView for Node {
    type V = NodeView;

    open spec fn deep_view(&self) -> NodeView {
        self@
    }
}

/// Which nodes are shown.
#[derive(Debug)]
pub struct Filter {
    pub include_project_only: Option<String>,
    pub updated_after: Option<Timestamp>,
}

/// A `Filter` as a plain value.
pub struct FilterView {
    pub include_project_only: Option<Seq<char>>,
    pub updated_after: Option<Timestamp>,
}

impl View for Filter {
    type V = FilterView;

    open spec fn view(&self) -> FilterView {
        FilterView {
            include_project_only: self.include_project_only.deep_view(),
            updated_after: self.updated_after,
        }
    }
}

impl FilterView {
    /// No project is asked for, or `project_titles` holds the one that is.
    pub open spec fn matches_project(self, project_titles: Seq<Seq<char>>) -> bool {
        match self.include_project_only {
            Some(project) => project_titles.contains(project),
            None => true,
        }
    }

    /// A time is set, and `updated_at` is not before it.
    pub open spec fn matches_updated_after(self, updated_at: Timestamp) -> bool {
        match self.updated_after {
            Some(updated_after) => updated_at.unix_nanos >= updated_after.unix_nanos,
            None => false,
        }
    }
}

impl NodeView {
    pub open spec fn is_open(self) -> bool {
        self.state == GithubIssueState::Open
    }

    /// Some node depends on this one.
    pub open spec fn blocks_anything(self) -> bool {
        !self.depended_on_by_ids.is_empty()
    }

    /// The node belongs to the project asked for, is open or was updated
    /// lately, and depends on something or has something depend on it.
    pub open spec fn passes_filter(self, filter: FilterView) -> bool {
        &&& filter.matches_project(self.project_titles)
        &&& (self.is_open() || filter.matches_updated_after(self.updated_at))
        &&& (self.depends_on_urls.len() > 0 || self.blocks_anything())
    }
}

impl Filter {
    pub fn matches_project(&self, project_titles: &IndexSet<String>) -> (b: bool)
        ensures
            b == self@.matches_project(string_set_items(*project_titles)),
    {
        match &self.include_project_only {
            Some(project) => string_set_contains(project_titles, project.as_str()),
            None => true,
        }
    }

    pub fn matches_updated_after(&self, updated_at: &Timestamp) -> (b: bool)
        ensures
            b == self@.matches_updated_after(*updated_at),
    {
        match self.updated_after {
            Some(updated_after) => updated_at.unix_nanos >= updated_after.unix_nanos,
            None => false,
        }
    }
}

impl Node {
    pub fn is_open(&self) -> (b: bool)
        ensures
            b == self@.is_open(),
    {
        self.state.is_open()
    }

    /// Returns true if this node should be included in the flowchart.
    pub fn passes_filter(&self, filter: &Filter) -> (b: bool)
        ensures
            b == self@.passes_filter(filter@),
    {
        filter.matches_project(&self.project_titles) && (self.is_open()
            || filter.matches_updated_after(&self.updated_at)) && (string_set_len(
            &self.depends_on_urls,
        ) > 0 || self.blocks_anything())
    }

    pub fn blocks_anything(&self) -> (b: bool)
        ensures
            b == self@.blocks_anything(),
    {
        !id_set_is_empty(&self.depended_on_by_ids)
    }
}

/// Whether `nodes` holds a node under the key `id`.
pub(crate) fn has_node(nodes: &IndexMap<usize, Node>, id: usize) -> (b: bool)
    ensures
        b == node_map_keys(*nodes).contains(id),
{
    node_map_get(nodes, id).is_some()
}

/// Whether one of `nodes` has the id `id`.
pub open spec fn has_id(nodes: Seq<NodeView>, id: usize) -> bool {
    exists|i: int| 0 <= i < nodes.len() && (#[trigger] nodes[i]).id.0 == id
}

/// The keys of a map of nodes are the ids of the nodes, and no two nodes
/// have the same id.
pub open spec fn keyed_by_id(keys: Seq<usize>, nodes: Seq<NodeView>) -> bool {
    &&& keys.len() == nodes.len()
    &&& forall|i: int| 0 <= i < nodes.len() ==> keys[i] == (#[trigger] nodes[i]).id.0
    &&& distinct_ids(nodes)
}

/// The keys that stand for the nodes are the ids that the nodes have.
pub proof fn lemma_keys_are_ids(keys: Seq<usize>, nodes: Seq<NodeView>)
    requires
        keyed_by_id(keys, nodes),
    ensures
        forall|id: usize| #[trigger] keys.contains(id) == has_id(nodes, id),
{
    assert forall|id: usize| #[trigger] keys.contains(id) == has_id(nodes, id) by {
        if keys.contains(id) {
            let i = choose|i: int| 0 <= i < keys.len() && keys[i] == id;
            assert(nodes[i].id.0 == id);
        }
        if has_id(nodes, id) {
            let i = choose|i: int| 0 <= i < nodes.len() && (#[trigger] nodes[i]).id.0 == id;
            assert(keys[i] == id);
        }
    }
}

/// No two of `nodes` have the same id.
pub open spec fn distinct_ids(nodes: Seq<NodeView>) -> bool {
    forall|i: int, j: int|
        0 <= i < j < nodes.len() ==> (#[trigger] nodes[i]).id != (#[trigger] nodes[j]).id
}

/// The graph of the issues.
#[derive(Debug)]
pub struct Flowchart {
    pub(crate) title: String,
    pub(crate) nodes_by_id: IndexMap<usize, Node>,
    pub(crate) nodes_by_url: IndexMap<String, usize>,
    pub(crate) show_all: bool,
    pub(crate) filter: Filter,
}

impl Flowchart {
    /// The nodes of the graph, in the order in which they were taken in.
    pub closed spec fn nodes(&self) -> Seq<NodeView> {
        node_map_nodes(self.nodes_by_id)
    }

    /// The id that the graph holds for each URL.
    pub closed spec fn url_index(&self) -> Map<Seq<char>, usize> {
        url_map_entries(self.nodes_by_url)
    }

    pub closed spec fn title(&self) -> Seq<char> {
        self.title@
    }

    pub closed spec fn show_all(&self) -> bool {
        self.show_all
    }

    pub closed spec fn filter(&self) -> FilterView {
        self.filter@
    }

    /// Each node stands under its id, and no id occurs twice.
    pub closed spec fn wf(&self) -> bool {
        keyed_by_id(node_map_keys(self.nodes_by_id), node_map_nodes(self.nodes_by_id))
    }

    /// What the parts of the graph are, in terms of its fields.
    pub(crate) proof fn lemma_parts(&self)
        ensures
            self.wf() == keyed_by_id(
                node_map_keys(self.nodes_by_id),
                node_map_nodes(self.nodes_by_id),
            ),
            self.nodes() == node_map_nodes(self.nodes_by_id),
            self.url_index() == url_map_entries(self.nodes_by_url),
            self.title() == self.title@,
            self.show_all() == self.show_all,
            self.filter() == self.filter@,
    {
    }
}

/// The nodes that pass `filter`, in their order.
pub open spec fn pruned(nodes: Seq<NodeView>, filter: FilterView) -> Seq<NodeView> {
    nodes.filter(|node: NodeView| node.passes_filter(filter))
}

/// The part of `index` that leads to one of `nodes`.
pub open spec fn restricted_index(index: Map<Seq<char>, usize>, nodes: Seq<NodeView>) -> Map<
    Seq<char>,
    usize,
> {
    Map::new(
        |url: Seq<char>| index.dom().contains(url) && has_id(nodes, index[url]),
        |url: Seq<char>| index[url],
    )
}

/// The node with the id `id`, if one of `nodes` has it.
pub open spec fn node_by_id(nodes: Seq<NodeView>, id: usize) -> Option<NodeView> {
    if has_id(nodes, id) {
        Some(nodes[choose|i: int| 0 <= i < nodes.len() && (#[trigger] nodes[i]).id.0 == id])
    } else {
        None
    }
}

/// The node that `index` leads to from `url`, if it leads to one of `nodes`.
pub open spec fn node_by_url(
    index: Map<Seq<char>, usize>,
    nodes: Seq<NodeView>,
    url: Seq<char>,
) -> Option<NodeView> {
    if index.dom().contains(url) {
        node_by_id(nodes, index[url])
    } else {
        None
    }
}

/// Selecting by index what passes a test on the element is filtering.
proof fn lemma_select_is_filter(
    keys: Seq<usize>,
    nodes: Seq<NodeView>,
    all: Seq<NodeView>,
    filter: FilterView,
)
    requires
        keys.len() == nodes.len(),
        nodes.len() <= all.len(),
        nodes == all.take(nodes.len() as int),
        forall|j: int| 0 <= j < nodes.len() ==> keys[j] == (#[trigger] nodes[j]).id.0,
        distinct_ids(nodes),
    ensures
        select(nodes, |i: int| all[i].passes_filter(filter)) == pruned(nodes, filter),
        select(keys, |i: int| all[i].passes_filter(filter)).len() == pruned(nodes, filter).len(),
        forall|j: int|
            0 <= j < pruned(nodes, filter).len() ==> select(
                keys,
                |i: int| all[i].passes_filter(filter),
            )[j] == (#[trigger] pruned(nodes, filter)[j]).id.0,
        forall|j: int|
            0 <= j < pruned(nodes, filter).len() ==> has_id(
                nodes,
                (#[trigger] pruned(nodes, filter)[j]).id.0,
            ),
        distinct_ids(pruned(nodes, filter)),
    decreases nodes.len(),
{
    let keep = |i: int| all[i].passes_filter(filter);
    let pred = |node: NodeView| node.passes_filter(filter);
    reveal(Seq::filter);
    if nodes.len() > 0 {
        let shorter = nodes.drop_last();
        assert(shorter == all.take(shorter.len() as int));
        lemma_select_is_filter(keys.drop_last(), shorter, all, filter);
        let last = nodes.last();
        assert(last == all[nodes.len() - 1]);
        let before = pruned(shorter, filter);
        assert forall|j: int| 0 <= j < before.len() implies has_id(
            nodes,
            (#[trigger] before[j]).id.0,
        ) && before[j].id != last.id by {
            let m = choose|m: int|
                0 <= m < shorter.len() && (#[trigger] shorter[m]).id.0 == before[j].id.0;
            assert(nodes[m].id.0 == before[j].id.0);
            assert(nodes[m].id != nodes[nodes.len() - 1].id);
        }
        if keep(nodes.len() - 1) {
            assert(pruned(nodes, filter) == before.push(last));
            assert(nodes[nodes.len() - 1].id.0 == last.id.0);
        } else {
            assert(pruned(nodes, filter) == before);
        }
    }
}

/// A second pruning removes nothing: the nodes that are left after one
/// pruning are the nodes that are left after two.
pub proof fn lemma_prune_idempotent(nodes: Seq<NodeView>, filter: FilterView)
    ensures
        pruned(pruned(nodes, filter), filter) == pruned(nodes, filter),
    decreases nodes.len(),
{
    reveal(Seq::filter);
    let pred = |node: NodeView| node.passes_filter(filter);
    if nodes.len() > 0 {
        lemma_prune_idempotent(nodes.drop_last(), filter);
        let before = pruned(nodes.drop_last(), filter);
        if pred(nodes.last()) {
            let once = before.push(nodes.last());
            assert(once.drop_last() =~= before);
            assert(pruned(once, filter) == pruned(before, filter).push(nodes.last()));
        }
    }
}

/// Pruning a graph that is pruned changes nothing: after two prunings the
/// graph holds the nodes and the index of URLs that it held after one.
pub proof fn lemma_prune_twice(before: Flowchart, once: Flowchart, twice: Flowchart)
    requires
        once.is_pruned_from(&before),
        twice.is_pruned_from(&once),
    ensures
        twice.nodes() == once.nodes(),
        twice.url_index() == once.url_index(),
{
    if !before.show_all() {
        lemma_prune_idempotent(before.nodes(), before.filter());
        assert(twice.url_index() =~= once.url_index());
    }
}

impl Flowchart {
    /// Whether this graph is what pruning makes of the graph `before`. A
    /// graph that shows all stays as it is. Of another, the nodes that pass
    /// the filter stay, and of the index of URLs what leads to one of them.
    pub open spec fn is_pruned_from(&self, before: &Flowchart) -> bool {
        &&& self.nodes() == if before.show_all() {
            before.nodes()
        } else {
            pruned(before.nodes(), before.filter())
        }
        &&& self.url_index() == if before.show_all() {
            before.url_index()
        } else {
            restricted_index(before.url_index(), self.nodes())
        }
        &&& self.title() == before.title()
        &&& self.show_all() == before.show_all()
        &&& self.filter() == before.filter()
    }

    /// Removes the nodes that do not pass the filter, and what the index of
    /// URLs holds for them. Nothing is removed from a graph that shows all.
    pub fn prune(&mut self)
        requires
            old(self).wf(),
        ensures
            final(self).wf(),
            final(self).is_pruned_from(old(self)),
    {
        if self.show_all {
            return;
        }
        let ghost keys = node_map_keys(self.nodes_by_id);
        let ghost nodes = node_map_nodes(self.nodes_by_id);
        let ghost index = url_map_entries(self.nodes_by_url);
        node_map_retain_passing(&mut self.nodes_by_id, &self.filter);
        url_map_retain_known(&mut self.nodes_by_url, &self.nodes_by_id);
        proof {
            assert(nodes == nodes.take(nodes.len() as int));
            lemma_select_is_filter(keys, nodes, nodes, self.filter@);
            let kept = node_map_nodes(self.nodes_by_id);
            lemma_keys_are_ids(node_map_keys(self.nodes_by_id), kept);
            assert(url_map_entries(self.nodes_by_url) =~= restricted_index(index, kept));
        }
    }

    /// The number of URLs that the graph holds a node for.
    pub fn num_nodes(&self) -> (n: usize)
        ensures
            n == self.url_index().dom().len(),
    {
        url_map_len(&self.nodes_by_url)
    }

    /// The node that the index of URLs leads to from `url`.
    pub fn get_node_by_url(&self, url: &str) -> (node: Option<&Node>)
        requires
            self.wf(),
        ensures
            node.deep_view() == node_by_url(self.url_index(), self.nodes(), url@),
    {
        match url_map_get(&self.nodes_by_url, url) {
            Some(node_id) => self.get_node_by_id(&NodeId(*node_id)),
            None => None,
        }
    }

    /// The node with the id `node_id`.
    pub fn get_node_by_id(&self, node_id: &NodeId) -> (node: Option<&Node>)
        requires
            self.wf(),
        ensures
            node.deep_view() == node_by_id(self.nodes(), node_id.0),
    {
        let node = node_map_get(&self.nodes_by_id, node_id.0);
        proof {
            let keys = node_map_keys(self.nodes_by_id);
            let nodes = node_map_nodes(self.nodes_by_id);
            let id = node_id.0;
            if keys.contains(id) {
                let p = keys.index_of(id);
                assert(nodes[p].id.0 == id);
                let q = choose|i: int| 0 <= i < nodes.len() && (#[trigger] nodes[i]).id.0 == id;
                if p < q {
                    assert(nodes[p].id != nodes[q].id);
                } else if q < p {
                    assert(nodes[q].id != nodes[p].id);
                }
            }
            if has_id(nodes, id) {
                let q = choose|i: int| 0 <= i < nodes.len() && (#[trigger] nodes[i]).id.0 == id;
                assert(keys[q] == id);
            }
        }
        node
    }

    /// The node at `index` in the order of the graph.
    pub fn get_node_by_index(&self, index: usize) -> (node: Option<&Node>)
        requires
            self.wf(),
        ensures
            node.deep_view() == if index < self.nodes().len() {
                Some(self.nodes()[index as int])
            } else {
                None
            },
    {
        match node_map_get_index(&self.nodes_by_id, index) {
            Some((_, node)) => Some(node),
            None => None,
        }
    }
}

} // verus!
