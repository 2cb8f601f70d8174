//! Building the graph: nodes are taken in one by one, then the relations
//! between them are resolved.

use indexmap::{IndexMap, IndexSet};
use vstd::prelude::*;
use vstd::string::*;

use crate::chart::{
    distinct_ids, has_id, has_node, keyed_by_id, lemma_keys_are_ids, Filter, FilterView,
    Flowchart, Node, NodeId, NodeView,
};
use crate::github::Timestamp;
use crate::ordered::{
    dependents_map_entries, dependents_map_entry, dependents_map_into_entries,
    dependents_map_new, id_set_insert, id_set_members, id_set_new, node_map_get_index,
    node_map_get_mut, node_map_insert, node_map_keys, node_map_len, node_map_new,
    node_map_nodes, string_set_get, string_set_items, string_set_len, url_map_entries,
    url_map_get, url_map_insert, url_map_new,
};

verus! {

/// The index of URLs: for each URL that is not empty, the id of the last of
/// `nodes` that has it.
pub open spec fn url_index(nodes: Seq<NodeView>) -> Map<Seq<char>, usize>
    decreases nodes.len(),
{
    if nodes.len() == 0 {
        Map::empty()
    } else if nodes.last().url.len() > 0 {
        url_index(nodes.drop_last()).insert(nodes.last().url, nodes.last().id.0)
    } else {
        url_index(nodes.drop_last())
    }
}

/// Whether the node at `i` says that it depends on `url`.
pub open spec fn depends_on_url(nodes: Seq<NodeView>, i: int, url: Seq<char>) -> bool {
    0 <= i < nodes.len() && nodes[i].depends_on_urls.contains(url)
}

/// The ids of the nodes that say that they depend on `url`.
pub open spec fn dependents(nodes: Seq<NodeView>, url: Seq<char>) -> Set<usize> {
    Set::new(
        |id: usize| exists|i: int| #[trigger] depends_on_url(nodes, i, url) && nodes[i].id.0 == id,
    )
}

/// For each URL that some node says it depends on, the ids of the nodes
/// that say so.
pub open spec fn dependents_table(nodes: Seq<NodeView>) -> Map<Seq<char>, Set<usize>> {
    Map::new(
        |url: Seq<char>| exists|i: int| #[trigger] depends_on_url(nodes, i, url),
        |url: Seq<char>| dependents(nodes, url),
    )
}

/// A node as the builder takes it in: no relation to another node is
/// resolved yet.
pub open spec fn ingested(node: NodeView) -> NodeView {
    NodeView { depends_on_ids: Set::empty(), depended_on_by_ids: Set::empty(), ..node }
}

/// Collects the nodes of a graph.
#[derive(Debug)]
pub struct FlowchartBuilder {
    title: String,
    nodes_by_id: IndexMap<usize, Node>,
    nodes_by_url: IndexMap<String, usize>,
    depended_on_by_ids: IndexMap<String, IndexSet<usize>>,
    show_all: bool,
    filter: Filter,
}

/// The table of dependents after the node `id` has been entered under the
/// first `count` of `urls`.
spec fn table_with(
    table: Map<Seq<char>, Set<usize>>,
    urls: Seq<Seq<char>>,
    count: int,
    id: usize,
) -> Map<Seq<char>, Set<usize>> {
    Map::new(
        |url: Seq<char>| table.dom().contains(url) || listed(urls, count, url),
        |url: Seq<char>|
            {
                let before = if table.dom().contains(url) {
                    table[url]
                } else {
                    Set::empty()
                };
                if listed(urls, count, url) {
                    before.insert(id)
                } else {
                    before
                }
            },
    )
}

/// Whether `url` is among the first `count` of `urls`.
spec fn listed(urls: Seq<Seq<char>>, count: int, url: Seq<char>) -> bool {
    exists|k: int| 0 <= k < count && k < urls.len() && #[trigger] urls[k] == url
}

impl FlowchartBuilder {
    /// The nodes taken in so far, in the order in which they came.
    pub closed spec fn nodes(&self) -> Seq<NodeView> {
        node_map_nodes(self.nodes_by_id)
    }

    pub closed spec fn title(&self) -> Seq<char> {
        self.title@
    }

    pub closed spec fn show_all(&self) -> bool {
        self.show_all
    }

    pub closed spec fn filter(&self) -> FilterView {
        self.filter@
    }

    /// The two indexes agree with the nodes: each node stands under its id,
    /// no id occurs twice, each URL leads to the last node that has it, and
    /// each URL that is depended on leads to the nodes that depend on it.
    pub closed spec fn wf(&self) -> bool {
        let nodes = node_map_nodes(self.nodes_by_id);
        &&& keyed_by_id(node_map_keys(self.nodes_by_id), nodes)
        &&& forall|i: int| 0 <= i < nodes.len() ==> (#[trigger] nodes[i]) == ingested(nodes[i])
        &&& url_map_entries(self.nodes_by_url) == url_index(nodes)
        &&& dependents_map_entries(self.depended_on_by_ids) == dependents_table(nodes)
    }

    pub fn new(
        title: String,
        show_all: bool,
        include_project_only: Option<String>,
        updated_after: Option<Timestamp>,
    ) -> (builder: Self)
        ensures
            builder.wf(),
            builder.nodes() == Seq::<NodeView>::empty(),
            builder.title() == title@,
            builder.show_all() == show_all,
            builder.filter() == (FilterView {
                include_project_only: include_project_only.deep_view(),
                updated_after,
            }),
    {
        let filter = Filter { updated_after, include_project_only };
        let builder = Self {
            title,
            nodes_by_id: node_map_new(),
            nodes_by_url: url_map_new(),
            depended_on_by_ids: dependents_map_new(),
            show_all,
            filter,
        };
        proof {
            assert(url_map_entries(builder.nodes_by_url) =~= url_index(builder.nodes()));
            assert(dependents_map_entries(builder.depended_on_by_ids) =~= dependents_table(
                builder.nodes(),
            ));
        }
        builder
    }

    /// Whether a node with the id `node_id` has been taken in.
    pub fn contains_id(&self, node_id: &NodeId) -> (b: bool)
        requires
            self.wf(),
        ensures
            b == has_id(self.nodes(), node_id.0),
    {
        let found = has_node(&self.nodes_by_id, node_id.0);
        proof {
            lemma_keys_are_ids(node_map_keys(self.nodes_by_id), node_map_nodes(self.nodes_by_id));
        }
        found
    }

    /// Whether a node with the URL `url` has been taken in.
    pub fn contains_url(&self, url: &str) -> (b: bool)
        requires
            self.wf(),
        ensures
            b == url_index(self.nodes()).dom().contains(url@),
    {
        url_map_get(&self.nodes_by_url, url).is_some()
    }

    /// Takes a node in. Its id must be new to the builder. Where a node
    /// with the same URL has been taken in before, the URL leads to the new
    /// node from now on. The relations of the node to others are resolved by
    /// `build`, not before; what the node brings of them is dropped.
    pub fn insert(&mut self, node: Node)
        requires
            old(self).wf(),
            !has_id(old(self).nodes(), node.id.0),
        ensures
            final(self).wf(),
            final(self).nodes() == old(self).nodes().push(ingested(node@)),
            final(self).title() == old(self).title(),
            final(self).show_all() == old(self).show_all(),
            final(self).filter() == old(self).filter(),
    {
        let mut node = node;
        node.depends_on_ids = id_set_new();
        node.depended_on_by_ids = id_set_new();
        let id = node.id.0;
        let ghost nodes = self.nodes();
        let ghost table = dependents_map_entries(self.depended_on_by_ids);
        let ghost urls = node@.depends_on_urls;
        assert(node@ =~= ingested(node@));

        // Track all the things that block this item.
        let count = string_set_len(&node.depends_on_urls);
        let mut k: usize = 0;
        while k < count
            invariant
                k <= count,
                count == urls.len(),
                urls == string_set_items(node.depends_on_urls),
                dependents_map_entries(self.depended_on_by_ids) == table_with(
                    table,
                    urls,
                    k as int,
                    id,
                ),
                self.nodes_by_id == old(self).nodes_by_id,
                self.nodes_by_url == old(self).nodes_by_url,
                self.title == old(self).title,
                self.show_all == old(self).show_all,
                self.filter == old(self).filter,
            decreases count - k,
        {
            if let Some(depends_on_url) = string_set_get(&node.depends_on_urls, k) {
                let set = dependents_map_entry(
                    &mut self.depended_on_by_ids,
                    depends_on_url.clone(),
                );
                id_set_insert(set, id);
                proof {
                    lemma_table_with_next(table, urls, k as int, id);
                }
            }
            k += 1;
        }

        if !node.url.as_str().is_empty() {
            url_map_insert(&mut self.nodes_by_url, node.url.clone(), id);
        }
        let ghost entered = node@;
        node_map_insert(&mut self.nodes_by_id, id, node);
        proof {
            let after = nodes.push(entered);
            assert(after.drop_last() =~= nodes);
            lemma_keys_are_ids(node_map_keys(old(self).nodes_by_id), nodes);
            assert(self.nodes() == after);
            lemma_dependents_push(nodes, entered);
        }
    }
}

/// What is among the first `k + 1` of `urls` is among the first `k`, or is
/// the one at `k`.
proof fn lemma_listed_next(urls: Seq<Seq<char>>, k: int)
    requires
        0 <= k < urls.len(),
    ensures
        forall|u: Seq<char>| #[trigger]
            listed(urls, k + 1, u) == (listed(urls, k, u) || u == urls[k]),
{
    assert forall|u: Seq<char>| #[trigger]
        listed(urls, k + 1, u) == (listed(urls, k, u) || u == urls[k]) by {
        if listed(urls, k + 1, u) {
            let j = choose|j: int| 0 <= j < k + 1 && j < urls.len() && #[trigger] urls[j] == u;
            if j < k {
                assert(listed(urls, k, u));
            }
        }
        if listed(urls, k, u) {
            let j = choose|j: int| 0 <= j < k && j < urls.len() && #[trigger] urls[j] == u;
            assert(urls[j] == u);
        }
        if u == urls[k] {
            assert(listed(urls, k + 1, u));
        }
    }
}

/// What is among all of `urls` is what `urls` holds.
proof fn lemma_listed_all(urls: Seq<Seq<char>>)
    ensures
        forall|u: Seq<char>| #[trigger] listed(urls, urls.len() as int, u) == urls.contains(u),
{
    assert forall|u: Seq<char>| #[trigger]
        listed(urls, urls.len() as int, u) == urls.contains(u) by {
        if listed(urls, urls.len() as int, u) {
            let j = choose|j: int|
                0 <= j < urls.len() && j < urls.len() && #[trigger] urls[j] == u;
            assert(urls[j] == u);
        }
        if urls.contains(u) {
            let j = choose|j: int| 0 <= j < urls.len() && urls[j] == u;
            assert(urls[j] == u);
        }
    }
}

/// Entering the node `id` under the URL at `k` leads from the table for the
/// first `k` of `urls` to the table for the first `k + 1`.
proof fn lemma_table_with_next(
    table: Map<Seq<char>, Set<usize>>,
    urls: Seq<Seq<char>>,
    k: int,
    id: usize,
)
    requires
        0 <= k < urls.len(),
    ensures
        ({
            let before = table_with(table, urls, k, id);
            let set = if before.dom().contains(urls[k]) {
                before[urls[k]]
            } else {
                Set::empty()
            };
            before.insert(urls[k], set.insert(id)) == table_with(table, urls, k + 1, id)
        }),
{
    let url = urls[k];
    let before = table_with(table, urls, k, id);
    let set = if before.dom().contains(url) {
        before[url]
    } else {
        Set::empty()
    };
    let after = before.insert(url, set.insert(id));
    let target = table_with(table, urls, k + 1, id);
    lemma_listed_next(urls, k);
    assert forall|u: Seq<char>| after.dom().contains(u) == target.dom().contains(u) by {}
    assert forall|u: Seq<char>| #[trigger] after.dom().contains(u) implies after[u]
        =~= target[u] by {
        if u == url {
            assert(after[u] == set.insert(id));
        } else {
            assert(after[u] == before[u]);
        }
    }
    assert(after =~= target);
}

/// What a node adds to the table of dependents.
proof fn lemma_dependents_push(nodes: Seq<NodeView>, node: NodeView)
    ensures
        dependents_table(nodes.push(node)) == table_with(
            dependents_table(nodes),
            node.depends_on_urls,
            node.depends_on_urls.len() as int,
            node.id.0,
        ),
{
    let after = nodes.push(node);
    let urls = node.depends_on_urls;
    let count = urls.len() as int;
    let left = dependents_table(after);
    let right = table_with(dependents_table(nodes), urls, count, node.id.0);
    lemma_listed_all(urls);
    assert forall|u: Seq<char>, i: int|
        depends_on_url(after, i, u) == (depends_on_url(nodes, i, u) || (i == nodes.len()
            && urls.contains(u))) by {}
    assert forall|u: Seq<char>| left.dom().contains(u) == right.dom().contains(u) by {
        if left.dom().contains(u) {
            let i = choose|i: int| #[trigger] depends_on_url(after, i, u);
            if i < nodes.len() {
                assert(depends_on_url(nodes, i, u));
            }
        }
        if right.dom().contains(u) {
            if listed(urls, count, u) {
                assert(depends_on_url(after, nodes.len() as int, u));
            } else {
                let i = choose|i: int| #[trigger] depends_on_url(nodes, i, u);
                assert(depends_on_url(after, i, u));
            }
        }
    }
    assert forall|u: Seq<char>| #[trigger] left.dom().contains(u) implies left[u] =~= right[u] by {
        assert forall|id: usize| left[u].contains(id) == right[u].contains(id) by {
            if left[u].contains(id) {
                let i = choose|i: int|
                    #[trigger] depends_on_url(after, i, u) && after[i].id.0 == id;
                if i < nodes.len() {
                    assert(depends_on_url(nodes, i, u) && nodes[i].id.0 == id);
                }
            }
            if right[u].contains(id) {
                if dependents_table(nodes).dom().contains(u) && dependents(nodes, u).contains(id) {
                    let i = choose|i: int|
                        #[trigger] depends_on_url(nodes, i, u) && nodes[i].id.0 == id;
                    assert(depends_on_url(after, i, u) && after[i].id.0 == id);
                } else {
                    assert(depends_on_url(after, nodes.len() as int, u));
                }
            }
        }
    }
}

/// The ids that `index` holds for the first `count` of `urls`.
pub open spec fn resolved_ids(
    index: Map<Seq<char>, usize>,
    urls: Seq<Seq<char>>,
    count: int,
) -> Set<usize> {
    Set::new(
        |id: usize|
            exists|k: int|
                0 <= k < count && k < urls.len() && index.dom().contains(#[trigger] urls[k])
                    && index[urls[k]] == id,
    )
}

/// Whether `index` leads from the URL of `node` to `node`.
pub open spec fn leads_to(index: Map<Seq<char>, usize>, node: NodeView) -> bool {
    index.dom().contains(node.url) && index[node.url] == node.id.0
}

/// A node with its relations to the other nodes resolved. It depends on the
/// nodes that the index of URLs holds for the URLs that it names. Where the
/// index leads from its URL to the node itself, the nodes that name this URL
/// depend on it; otherwise none does.
pub open spec fn resolve_node(nodes: Seq<NodeView>, node: NodeView) -> NodeView {
    NodeView {
        depends_on_ids: resolved_ids(
            url_index(nodes),
            node.depends_on_urls,
            node.depends_on_urls.len() as int,
        ),
        depended_on_by_ids: if leads_to(url_index(nodes), node) {
            dependents(nodes, node.url)
        } else {
            Set::empty()
        },
        ..node
    }
}

/// The nodes of a graph, each with its relations to the others resolved.
pub open spec fn resolved(nodes: Seq<NodeView>) -> Seq<NodeView> {
    nodes.map_values(|node: NodeView| resolve_node(nodes, node))
}

/// Each id that a node holds, of a node that it depends on or of one that
/// depends on it, is the id of one of the nodes.
pub open spec fn no_dangling_ids(nodes: Seq<NodeView>) -> bool {
    &&& forall|i: int, id: usize|
        0 <= i < nodes.len() && #[trigger] nodes[i].depends_on_ids.contains(id) ==> has_id(
            nodes,
            id,
        )
    &&& forall|i: int, id: usize|
        0 <= i < nodes.len() && #[trigger] nodes[i].depended_on_by_ids.contains(id) ==> has_id(
            nodes,
            id,
        )
}

/// Whenever a node holds the id of another as one that it depends on, the
/// other holds the id of the first as one that depends on it.
pub open spec fn reverse_consistent(nodes: Seq<NodeView>) -> bool {
    forall|a: int, b: int|
        0 <= a < nodes.len() && 0 <= b < nodes.len() && #[trigger] nodes[a].depends_on_ids.contains(
            nodes[b].id.0,
        ) ==> nodes[b].depended_on_by_ids.contains(nodes[a].id.0)
}

/// Each id that `index` holds for a URL is the id of a node with that URL.
pub open spec fn index_is_sound(index: Map<Seq<char>, usize>, nodes: Seq<NodeView>) -> bool {
    forall|url: Seq<char>| #[trigger]
        index.dom().contains(url) ==> exists|i: int|
            0 <= i < nodes.len() && (#[trigger] nodes[i]).url == url && nodes[i].id.0 == index[url]
}

/// The index of URLs holds, for a URL, the id of a node with that URL.
pub proof fn lemma_url_index_sound(nodes: Seq<NodeView>)
    ensures
        index_is_sound(url_index(nodes), nodes),
    decreases nodes.len(),
{
    if nodes.len() > 0 {
        let shorter = nodes.drop_last();
        lemma_url_index_sound(shorter);
        assert forall|url: Seq<char>| #[trigger]
            url_index(nodes).dom().contains(url) implies exists|i: int|
            0 <= i < nodes.len() && (#[trigger] nodes[i]).url == url && nodes[i].id.0 == url_index(
                nodes,
            )[url] by {
            if nodes.last().url.len() > 0 && nodes.last().url == url {
                assert(nodes[nodes.len() - 1].url == url);
            } else {
                assert(url_index(shorter).dom().contains(url));
                let i = choose|i: int|
                    0 <= i < shorter.len() && (#[trigger] shorter[i]).url == url && shorter[i].id.0
                        == url_index(shorter)[url];
                assert(nodes[i].url == url);
            }
        }
    }
}

/// After the relations are resolved, no node holds an id that none of the
/// nodes has.
pub proof fn lemma_resolved_no_dangling_ids(nodes: Seq<NodeView>)
    ensures
        no_dangling_ids(resolved(nodes)),
{
    let after = resolved(nodes);
    let index = url_index(nodes);
    lemma_url_index_sound(nodes);
    assert forall|i: int, id: usize|
        0 <= i < after.len() && #[trigger] after[i].depends_on_ids.contains(id) implies has_id(
        after,
        id,
    ) by {
        let urls = nodes[i].depends_on_urls;
        let k = choose|k: int|
            0 <= k < urls.len() && k < urls.len() && index.dom().contains(#[trigger] urls[k])
                && index[urls[k]] == id;
        let j = choose|j: int|
            0 <= j < nodes.len() && (#[trigger] nodes[j]).url == urls[k] && nodes[j].id.0
                == index[urls[k]];
        assert(after[j].id.0 == id);
    }
    assert forall|i: int, id: usize|
        0 <= i < after.len() && #[trigger] after[i].depended_on_by_ids.contains(
            id,
        ) implies has_id(after, id) by {
        let j = choose|j: int|
            #[trigger] depends_on_url(nodes, j, nodes[i].url) && nodes[j].id.0 == id;
        assert(after[j].id.0 == id);
    }
}

/// After the relations are resolved, a node that depends on another is
/// among those that the other is depended on by, where no two nodes share an
/// id.
pub proof fn lemma_resolved_reverse_consistent(nodes: Seq<NodeView>)
    requires
        distinct_ids(nodes),
    ensures
        reverse_consistent(resolved(nodes)),
{
    let after = resolved(nodes);
    let index = url_index(nodes);
    lemma_url_index_sound(nodes);
    assert forall|a: int, b: int|
        0 <= a < after.len() && 0 <= b < after.len() && #[trigger] after[a].depends_on_ids.contains(
            after[b].id.0,
        ) implies after[b].depended_on_by_ids.contains(after[a].id.0) by {
        let urls = nodes[a].depends_on_urls;
        let id = nodes[b].id.0;
        let k = choose|k: int|
            0 <= k < urls.len() && k < urls.len() && index.dom().contains(#[trigger] urls[k])
                && index[urls[k]] == id;
        let j = choose|j: int|
            0 <= j < nodes.len() && (#[trigger] nodes[j]).url == urls[k] && nodes[j].id.0
                == index[urls[k]];
        lemma_same_id_same_node(nodes, j, b);
        assert(leads_to(index, nodes[b]));
        assert(depends_on_url(nodes, a, nodes[b].url));
    }
}

/// Two nodes with the same id are one node, where no two nodes share an id.
proof fn lemma_same_id_same_node(nodes: Seq<NodeView>, i: int, j: int)
    requires
        distinct_ids(nodes),
        0 <= i < nodes.len(),
        0 <= j < nodes.len(),
        nodes[i].id.0 == nodes[j].id.0,
    ensures
        i == j,
{
    if i < j {
        assert(nodes[i].id != nodes[j].id);
    } else if j < i {
        assert(nodes[j].id != nodes[i].id);
    }
}

/// The index at which a key stands among keys that are the ids of `nodes`.
proof fn lemma_index_of_key(keys: Seq<usize>, nodes: Seq<NodeView>, i: int)
    requires
        keyed_by_id(keys, nodes),
        0 <= i < keys.len(),
    ensures
        keys.contains(keys[i]),
        keys.index_of(keys[i]) == i,
{
    assert(keys.contains(keys[i]));
    lemma_same_id_same_node(nodes, keys.index_of(keys[i]), i);
}

/// No node depends on a URL that is no key of the table of dependents.
proof fn lemma_no_dependents(nodes: Seq<NodeView>, url: Seq<char>)
    requires
        !dependents_table(nodes).dom().contains(url),
    ensures
        dependents(nodes, url) == Set::<usize>::empty(),
{
    assert forall|id: usize| !dependents(nodes, url).contains(id) by {
        if dependents(nodes, url).contains(id) {
            let i = choose|i: int| #[trigger] depends_on_url(nodes, i, url) && nodes[i].id.0 == id;
            assert(depends_on_url(nodes, i, url));
        }
    }
    assert(dependents(nodes, url) =~= Set::<usize>::empty());
}

/// The ids that `index` holds for the URLs in `urls`.
fn resolve_ids(index: &IndexMap<String, usize>, urls: &IndexSet<String>) -> (ids: IndexSet<usize>)
    ensures
        id_set_members(ids) == resolved_ids(
            url_map_entries(*index),
            string_set_items(*urls),
            string_set_items(*urls).len() as int,
        ),
{
    let mut ids = id_set_new();
    let count = string_set_len(urls);
    let mut k: usize = 0;
    while k < count
        invariant
            k <= count,
            count == string_set_items(*urls).len(),
            id_set_members(ids) == resolved_ids(
                url_map_entries(*index),
                string_set_items(*urls),
                k as int,
            ),
        decreases count - k,
    {
        let ghost before = id_set_members(ids);
        if let Some(depends_on_url) = string_set_get(urls, k) {
            if let Some(depends_on_id) = url_map_get(index, depends_on_url.as_str()) {
                id_set_insert(&mut ids, *depends_on_id);
            }
        }
        proof {
            let items = string_set_items(*urls);
            let entries = url_map_entries(*index);
            let target = resolved_ids(entries, items, k + 1);
            assert forall|id: usize| id_set_members(ids).contains(id) == target.contains(id) by {
                if target.contains(id) {
                    let j = choose|j: int|
                        0 <= j < k + 1 && j < items.len() && entries.dom().contains(
                            #[trigger] items[j],
                        ) && entries[items[j]] == id;
                    if j < k {
                        assert(before.contains(id));
                    }
                }
                if before.contains(id) {
                    let j = choose|j: int|
                        0 <= j < k && j < items.len() && entries.dom().contains(
                            #[trigger] items[j],
                        ) && entries[items[j]] == id;
                    assert(entries.dom().contains(items[j]));
                }
                if entries.dom().contains(items[k as int]) && entries[items[k as int]] == id {
                    assert(target.contains(id));
                }
            }
            assert(id_set_members(ids) =~= target);
        }
        k += 1;
    }
    ids
}

/// A node with the ids that `index` holds for the URLs that it depends on.
spec fn with_depends_on(index: Map<Seq<char>, usize>, node: NodeView) -> NodeView {
    NodeView {
        depends_on_ids: resolved_ids(
            index,
            node.depends_on_urls,
            node.depends_on_urls.len() as int,
        ),
        ..node
    }
}

/// A node with the ids that `table` holds for its URL, where `index` leads
/// from this URL to the node and the URL is among the first `count` of `urls`.
spec fn with_depended_on_by(
    index: Map<Seq<char>, usize>,
    table: Map<Seq<char>, Set<usize>>,
    urls: Seq<Seq<char>>,
    count: int,
    node: NodeView,
) -> NodeView {
    NodeView {
        depended_on_by_ids: if leads_to(index, node) && listed(urls, count, node.url) {
            table[node.url]
        } else {
            node.depended_on_by_ids
        },
        ..node
    }
}

/// Gives each node the ids of the nodes that it depends on: those that
/// `nodes_by_url` holds for the URLs that the node names.
fn resolve_depends_on(
    nodes_by_id: &mut IndexMap<usize, Node>,
    nodes_by_url: &IndexMap<String, usize>,
)
    requires
        keyed_by_id(node_map_keys(*old(nodes_by_id)), node_map_nodes(*old(nodes_by_id))),
    ensures
        node_map_keys(*final(nodes_by_id)) == node_map_keys(*old(nodes_by_id)),
        node_map_nodes(*final(nodes_by_id)) == node_map_nodes(*old(nodes_by_id)).map_values(
            |node: NodeView| with_depends_on(url_map_entries(*nodes_by_url), node),
        ),
{
    let ghost keys = node_map_keys(*nodes_by_id);
    let ghost nodes = node_map_nodes(*nodes_by_id);
    let ghost index = url_map_entries(*nodes_by_url);
    let count = node_map_len(nodes_by_id);
    let mut i: usize = 0;
    while i < count
        invariant
            i <= count,
            count == nodes.len(),
            keyed_by_id(keys, nodes),
            index == url_map_entries(*nodes_by_url),
            node_map_keys(*nodes_by_id) == keys,
            node_map_nodes(*nodes_by_id).len() == count,
            forall|j: int|
                0 <= j < i ==> (#[trigger] node_map_nodes(*nodes_by_id)[j]) == with_depends_on(
                    index,
                    nodes[j],
                ),
            forall|j: int|
                i <= j < count ==> (#[trigger] node_map_nodes(*nodes_by_id)[j]) == nodes[j],
        decreases count - i,
    {
        if let Some((key, node)) = node_map_get_index(nodes_by_id, i) {
            let key = *key;
            let ids = resolve_ids(nodes_by_url, &node.depends_on_urls);
            proof {
                lemma_index_of_key(keys, nodes, i as int);
            }
            if let Some(node) = node_map_get_mut(nodes_by_id, key) {
                node.depends_on_ids = ids;
            }
            assert(node_map_nodes(*nodes_by_id)[i as int] =~= with_depends_on(
                index,
                nodes[i as int],
            ));
        }
        i += 1;
    }
    assert(node_map_nodes(*nodes_by_id) =~= nodes.map_values(
        |node: NodeView| with_depends_on(index, node),
    ));
}

/// Gives each node the ids of the nodes that depend on it: those that
/// `dependents` holds for the URL of the node, where `nodes_by_url` leads from
/// this URL to the node.
fn resolve_depended_on_by(
    nodes_by_id: &mut IndexMap<usize, Node>,
    nodes_by_url: &IndexMap<String, usize>,
    dependents: IndexMap<String, IndexSet<usize>>,
)
    requires
        keyed_by_id(node_map_keys(*old(nodes_by_id)), node_map_nodes(*old(nodes_by_id))),
        index_is_sound(url_map_entries(*nodes_by_url), node_map_nodes(*old(nodes_by_id))),
    ensures
        node_map_keys(*final(nodes_by_id)) == node_map_keys(*old(nodes_by_id)),
        node_map_nodes(*final(nodes_by_id)) == node_map_nodes(*old(nodes_by_id)).map_values(
            |node: NodeView|
                NodeView {
                    depended_on_by_ids: if leads_to(url_map_entries(*nodes_by_url), node)
                        && dependents_map_entries(dependents).dom().contains(node.url) {
                        dependents_map_entries(dependents)[node.url]
                    } else {
                        node.depended_on_by_ids
                    },
                    ..node
                },
        ),
{
    let ghost keys = node_map_keys(*nodes_by_id);
    let ghost nodes = node_map_nodes(*nodes_by_id);
    let ghost index = url_map_entries(*nodes_by_url);
    let ghost table = dependents_map_entries(dependents);
    let entries = dependents_map_into_entries(dependents);
    let ghost urls = entries@.map_values(|e: (String, IndexSet<usize>)| e.0@);
    for entry in it: entries
        invariant
            it.seq() == entries@,
            urls == entries@.map_values(|e: (String, IndexSet<usize>)| e.0@),
            forall|k: int|
                0 <= k < entries.len() ==> table.dom().contains((#[trigger] entries[k]).0@)
                    && table[entries[k].0@] == id_set_members(entries[k].1),
            keyed_by_id(keys, nodes),
            index == url_map_entries(*nodes_by_url),
            index_is_sound(index, nodes),
            node_map_keys(*nodes_by_id) == keys,
            node_map_nodes(*nodes_by_id).len() == nodes.len(),
            forall|j: int|
                0 <= j < nodes.len() ==> (#[trigger] node_map_nodes(*nodes_by_id)[j])
                    == with_depended_on_by(index, table, urls, it.index() as int, nodes[j]),
    {
        let ghost before = node_map_nodes(*nodes_by_id);
        let ghost step = it.index() as int;
        let (url, depended_on_ids) = entry;
        assert(url@ == urls[step]);
        assert(table[url@] == id_set_members(depended_on_ids));
        let ghost target: int = -1;
        if let Some(node_id) = url_map_get(nodes_by_url, url.as_str()) {
            proof {
                target = choose|p: int|
                    0 <= p < nodes.len() && (#[trigger] nodes[p]).url == url@ && nodes[p].id.0
                        == index[url@];
                lemma_index_of_key(keys, nodes, target);
            }
            if let Some(node) = node_map_get_mut(nodes_by_id, *node_id) {
                node.depended_on_by_ids = depended_on_ids;
            }
        }
        proof {
            let after = node_map_nodes(*nodes_by_id);
            lemma_listed_next(urls, step);
            assert forall|j: int| 0 <= j < nodes.len() implies (#[trigger] after[j])
                == with_depended_on_by(index, table, urls, step + 1, nodes[j]) by {
                if j == target {
                    assert(after[j] =~= with_depended_on_by(
                        index,
                        table,
                        urls,
                        step + 1,
                        nodes[j],
                    ));
                } else {
                    assert(after[j] == before[j]);
                    if leads_to(index, nodes[j]) && nodes[j].url == url@ {
                        lemma_same_id_same_node(nodes, j, target);
                    }
                }
            }
        }
    }
    proof {
        lemma_listed_all(urls);
        assert forall|url: Seq<char>| table.dom().contains(url) == urls.contains(url) by {
            if table.dom().contains(url) {
                let k = choose|k: int| 0 <= k < entries.len() && (#[trigger] entries[k]).0@ == url;
                assert(urls[k] == url);
            }
            if urls.contains(url) {
                let k = choose|k: int| 0 <= k < urls.len() && urls[k] == url;
                assert(table.dom().contains(entries[k].0@));
            }
        }
        assert(node_map_nodes(*nodes_by_id) =~= nodes.map_values(
            |node: NodeView|
                NodeView {
                    depended_on_by_ids: if leads_to(index, node) && table.dom().contains(node.url) {
                        table[node.url]
                    } else {
                        node.depended_on_by_ids
                    },
                    ..node
                },
        ));
    }
}

impl FlowchartBuilder {
    /// Resolves the relations between the nodes and gives the graph. The
    /// nodes stay in their order. Each depends on the nodes that the URLs it
    /// names lead to, and is depended on by the nodes that name its URL.
    pub fn build(self) -> (chart: Flowchart)
        requires
            self.wf(),
        ensures
            chart.wf(),
            chart.nodes() == resolved(self.nodes()),
            chart.url_index() == url_index(self.nodes()),
            chart.title() == self.title(),
            chart.show_all() == self.show_all(),
            chart.filter() == self.filter(),
            no_dangling_ids(chart.nodes()),
            reverse_consistent(chart.nodes()),
    {
        let ghost nodes = self.nodes();
        let FlowchartBuilder {
            title,
            mut nodes_by_id,
            nodes_by_url,
            depended_on_by_ids,
            show_all,
            filter,
        } = self;

        // Convert URLs to IDs.
        resolve_depends_on(&mut nodes_by_id, &nodes_by_url);
        proof {
            lemma_url_index_sound(nodes);
            let half = node_map_nodes(nodes_by_id);
            assert forall|url: Seq<char>| #[trigger]
                url_index(nodes).dom().contains(url) implies exists|i: int|
                0 <= i < half.len() && (#[trigger] half[i]).url == url && half[i].id.0 == url_index(
                    nodes,
                )[url] by {
                let i = choose|i: int|
                    0 <= i < nodes.len() && (#[trigger] nodes[i]).url == url && nodes[i].id.0
                        == url_index(nodes)[url];
                assert(half[i].url == url);
            }
        }
        // Convert dependencies to depended on by.
        resolve_depended_on_by(&mut nodes_by_id, &nodes_by_url, depended_on_by_ids);

        let chart = Flowchart { title, nodes_by_id, nodes_by_url, show_all, filter };
        proof {
            chart.lemma_parts();
            assert forall|j: int| 0 <= j < nodes.len() implies chart.nodes()[j] == resolved(
                nodes,
            )[j] by {
                if !dependents_table(nodes).dom().contains(nodes[j].url) {
                    lemma_no_dependents(nodes, nodes[j].url);
                }
                assert(chart.nodes()[j] =~= resolved(nodes)[j]);
            }
            assert(chart.nodes() =~= resolved(nodes));
            lemma_resolved_no_dangling_ids(nodes);
            lemma_resolved_reverse_consistent(nodes);
        }
        chart
    }
}

} // verus!
