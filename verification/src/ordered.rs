//! The insertion-ordered sets and maps of the crate `indexmap`, as the graph
//! uses them. What a collection holds has a name here; each function below
//! calls one method of `indexmap` and states what the method does to the
//! contents so named.

use indexmap::{IndexMap, IndexSet};
use vstd::prelude::*;

use crate::chart::{has_node, Filter, Node, NodeView};

verus! {

/// The type `indexmap::IndexSet`; nothing inside a set is visible but
/// through the functions below.
#[verifier::external_type_specification]
#[verifier::external_body]
#[verifier::reject_recursive_types(T)]
#[verifier::reject_recursive_types(S)]
pub struct ExIndexSet<T, S>(IndexSet<T, S>);

/// The type `indexmap::IndexMap`; nothing inside a map is visible but
/// through the functions below.
#[verifier::external_type_specification]
#[verifier::external_body]
#[verifier::reject_recursive_types(K)]
#[verifier::reject_recursive_types(V)]
#[verifier::reject_recursive_types(S)]
pub struct ExIndexMap<K, V, S>(IndexMap<K, V, S>);

/// The strings that a set holds, in the order in which they were inserted.
pub uninterp spec fn string_set_items(set: IndexSet<String>) -> Seq<Seq<char>>;

/// The ids that a set holds.
pub uninterp spec fn id_set_members(set: IndexSet<usize>) -> Set<usize>;

/// The keys of a map of nodes, in the order in which they were inserted.
pub uninterp spec fn node_map_keys(map: IndexMap<usize, Node>) -> Seq<usize>;

/// The nodes of a map of nodes, each at the index of its key.
pub uninterp spec fn node_map_nodes(map: IndexMap<usize, Node>) -> Seq<NodeView>;

/// The id that a map holds for each URL.
pub uninterp spec fn url_map_entries(map: IndexMap<String, usize>) -> Map<Seq<char>, usize>;

/// The ids that a map holds for each URL.
pub uninterp spec fn dependents_map_entries(map: IndexMap<String, IndexSet<usize>>) -> Map<
    Seq<char>,
    Set<usize>,
>;

/// `IndexSet::new`: a set that holds nothing.
#[verifier::external_body]
pub(crate) fn string_set_new() -> (set: IndexSet<String>)
    ensures
        string_set_items(set) == Seq::<Seq<char>>::empty(),
{
    IndexSet::new()
}

/// `IndexSet::insert`: a value that the set does not hold yet is put last
/// and `true` is returned; otherwise the set stays as it is.
#[verifier::external_body]
pub(crate) fn string_set_insert(set: &mut IndexSet<String>, value: String) -> (added: bool)
    ensures
        added == !string_set_items(*old(set)).contains(value@),
        string_set_items(*final(set)) == if added {
            string_set_items(*old(set)).push(value@)
        } else {
            string_set_items(*old(set))
        },
{
    set.insert(value)
}

/// `IndexSet::contains`: whether the set holds the value.
#[verifier::external_body]
pub(crate) fn string_set_contains(set: &IndexSet<String>, value: &str) -> (found: bool)
    ensures
        found == string_set_items(*set).contains(value@),
{
    set.contains(value)
}

/// `IndexSet::len`: the number of values in the set.
#[verifier::external_body]
pub(crate) fn string_set_len(set: &IndexSet<String>) -> (len: usize)
    ensures
        len == string_set_items(*set).len(),
{
    set.len()
}

/// `IndexSet::get_index`: the value at an index, if the index is below the
/// length.
#[verifier::external_body]
pub(crate) fn string_set_get(set: &IndexSet<String>, index: usize) -> (value: Option<&String>)
    ensures
        value.deep_view() == if index < string_set_items(*set).len() {
            Some(string_set_items(*set)[index as int])
        } else {
            None
        },
{
    set.get_index(index)
}

/// `IndexSet::new`: a set that holds nothing.
#[verifier::external_body]
pub(crate) fn id_set_new() -> (set: IndexSet<usize>)
    ensures
        id_set_members(set) == Set::<usize>::empty(),
{
    IndexSet::new()
}

/// `IndexSet::insert`: the set holds the value afterwards; `true` is
/// returned if it did not before.
#[verifier::external_body]
pub(crate) fn id_set_insert(set: &mut IndexSet<usize>, id: usize) -> (added: bool)
    ensures
        added == !id_set_members(*old(set)).contains(id),
        id_set_members(*final(set)) == id_set_members(*old(set)).insert(id),
{
    set.insert(id)
}

/// `IndexSet::is_empty`: whether the set holds nothing.
#[verifier::external_body]
pub(crate) fn id_set_is_empty(set: &IndexSet<usize>) -> (empty: bool)
    ensures
        empty == id_set_members(*set).is_empty(),
{
    set.is_empty()
}

/// `IndexMap::new`: a map that holds nothing.
#[verifier::external_body]
pub(crate) fn node_map_new() -> (map: IndexMap<usize, Node>)
    ensures
        node_map_keys(map) == Seq::<usize>::empty(),
        node_map_nodes(map) == Seq::<NodeView>::empty(),
{
    IndexMap::new()
}

/// `IndexMap::len`: the number of entries, which is that of the keys and
/// that of the nodes.
#[verifier::external_body]
pub(crate) fn node_map_len(map: &IndexMap<usize, Node>) -> (len: usize)
    ensures
        len == node_map_keys(*map).len(),
        len == node_map_nodes(*map).len(),
{
    map.len()
}

/// `IndexMap::insert`: where the key is in the map, the node takes the place
/// of the one that was there, which is returned; otherwise key and node are
/// put last.
#[verifier::external_body]
pub(crate) fn node_map_insert(map: &mut IndexMap<usize, Node>, key: usize, node: Node) -> (replaced:
    Option<Node>)
    ensures
        node_map_keys(*old(map)).contains(key) ==> {
            let index = node_map_keys(*old(map)).index_of(key);
            &&& node_map_keys(*final(map)) == node_map_keys(*old(map))
            &&& node_map_nodes(*final(map)) == node_map_nodes(*old(map)).update(index, node@)
            &&& replaced.deep_view() == Some(node_map_nodes(*old(map))[index])
        },
        !node_map_keys(*old(map)).contains(key) ==> {
            &&& node_map_keys(*final(map)) == node_map_keys(*old(map)).push(key)
            &&& node_map_nodes(*final(map)) == node_map_nodes(*old(map)).push(node@)
            &&& replaced is None
        },
{
    map.insert(key, node)
}

/// `IndexMap::get`: the node that the map holds for the key, if any.
#[verifier::external_body]
pub(crate) fn node_map_get(map: &IndexMap<usize, Node>, key: usize) -> (node: Option<&Node>)
    ensures
        node.deep_view() == if node_map_keys(*map).contains(key) {
            Some(node_map_nodes(*map)[node_map_keys(*map).index_of(key)])
        } else {
            None
        },
{
    map.get(&key)
}

/// `IndexMap::get_index`: key and node at an index, if the index is below
/// the length.
#[verifier::external_body]
pub(crate) fn node_map_get_index(map: &IndexMap<usize, Node>, index: usize) -> (entry: Option<
    (&usize, &Node),
>)
    ensures
        entry.deep_view() == if index < node_map_keys(*map).len() {
            Some((node_map_keys(*map)[index as int], node_map_nodes(*map)[index as int]))
        } else {
            None
        },
{
    map.get_index(index)
}

/// `IndexMap::get_mut`: the node that the map holds for the key, if any, to
/// be changed in its place. Keys and order stay.
#[verifier::external_body]
pub(crate) fn node_map_get_mut(map: &mut IndexMap<usize, Node>, key: usize) -> (node: Option<
    &mut Node,
>)
    ensures
        node_map_keys(*final(map)) == node_map_keys(*old(map)),
        node is Some == node_map_keys(*old(map)).contains(key),
        node is Some ==> {
            let index = node_map_keys(*old(map)).index_of(key);
            &&& (*node.unwrap())@ == node_map_nodes(*old(map))[index]
            &&& node_map_nodes(*final(map)) == node_map_nodes(*old(map)).update(
                index,
                (*final(node.unwrap()))@,
            )
        },
        node is None ==> node_map_nodes(*final(map)) == node_map_nodes(*old(map)),
{
    map.get_mut(&key)
}

/// The elements of `s` at the indices of which `keep` holds, in order.
pub open spec fn select<A>(s: Seq<A>, keep: spec_fn(int) -> bool) -> Seq<A>
    decreases s.len(),
{
    if s.len() == 0 {
        s
    } else if keep(s.len() - 1) {
        select(s.drop_last(), keep).push(s.last())
    } else {
        select(s.drop_last(), keep)
    }
}

/// `IndexMap::retain`, keeping the nodes that pass `filter`: the entries
/// kept are those whose node passes, and they keep their order.
#[verifier::external_body]
pub(crate) fn node_map_retain_passing(map: &mut IndexMap<usize, Node>, filter: &Filter)
    ensures
        node_map_keys(*final(map)) == select(
            node_map_keys(*old(map)),
            |i: int| node_map_nodes(*old(map))[i].passes_filter(filter@),
        ),
        node_map_nodes(*final(map)) == select(
            node_map_nodes(*old(map)),
            |i: int| node_map_nodes(*old(map))[i].passes_filter(filter@),
        ),
{
    map.retain(|_, node| node.passes_filter(filter))
}

/// `IndexMap::new`: a map that holds nothing.
#[verifier::external_body]
pub(crate) fn url_map_new() -> (map: IndexMap<String, usize>)
    ensures
        url_map_entries(map).dom().is_empty(),
{
    IndexMap::new()
}

/// `IndexMap::insert`: the map holds the id for the URL afterwards, and what
/// it held for the URL before is returned.
#[verifier::external_body]
pub(crate) fn url_map_insert(
    map: &mut IndexMap<String, usize>,
    url: String,
    id: usize,
) -> (replaced: Option<usize>)
    ensures
        url_map_entries(*final(map)) == url_map_entries(*old(map)).insert(url@, id),
        replaced == url_map_entries(*old(map)).get(url@),
{
    map.insert(url, id)
}

/// `IndexMap::get`: the id that the map holds for the URL, if any.
#[verifier::external_body]
pub(crate) fn url_map_get<'a>(map: &'a IndexMap<String, usize>, url: &str) -> (id: Option<
    &'a usize,
>)
    ensures
        id.deep_view() == url_map_entries(*map).get(url@),
{
    map.get(url)
}

/// `IndexMap::len`: the number of URLs that the map holds an id for.
#[verifier::external_body]
pub(crate) fn url_map_len(map: &IndexMap<String, usize>) -> (len: usize)
    ensures
        len == url_map_entries(*map).dom().len(),
{
    map.len()
}

/// `IndexMap::retain`, keeping the URLs whose id is a key of `nodes`.
#[verifier::external_body]
pub(crate) fn url_map_retain_known(
    map: &mut IndexMap<String, usize>,
    nodes: &IndexMap<usize, Node>,
)
    ensures
        url_map_entries(*final(map)) == Map::new(
            |url: Seq<char>|
                url_map_entries(*old(map)).dom().contains(url) && node_map_keys(*nodes).contains(
                    url_map_entries(*old(map))[url],
                ),
            |url: Seq<char>| url_map_entries(*old(map))[url],
        ),
{
    map.retain(|_, id| has_node(nodes, *id))
}

/// `IndexMap::new`: a map that holds nothing.
#[verifier::external_body]
pub(crate) fn dependents_map_new() -> (map: IndexMap<String, IndexSet<usize>>)
    ensures
        dependents_map_entries(map).dom().is_empty(),
{
    IndexMap::new()
}

/// `IndexMap::entry` and `Entry::or_default`: the set that the map holds
/// for the URL, to be changed in its place; where the map held none, an empty
/// set is put there first.
#[verifier::external_body]
pub(crate) fn dependents_map_entry(
    map: &mut IndexMap<String, IndexSet<usize>>,
    url: String,
) -> (set: &mut IndexSet<usize>)
    ensures
        id_set_members(*set) == if dependents_map_entries(*old(map)).dom().contains(url@) {
            dependents_map_entries(*old(map))[url@]
        } else {
            Set::<usize>::empty()
        },
        dependents_map_entries(*final(map)) == dependents_map_entries(*old(map)).insert(
            url@,
            id_set_members(*final(set)),
        ),
{
    map.entry(url).or_default()
}

/// `IndexMap::into_iter`: the entries of the map, each URL once, with the
/// set that the map held for it.
#[verifier::external_body]
pub(crate) fn dependents_map_into_entries(map: IndexMap<String, IndexSet<usize>>) -> (entries: Vec<
    (String, IndexSet<usize>),
>)
    ensures
        forall|i: int|
            0 <= i < entries.len() ==> dependents_map_entries(map).dom().contains(
                (#[trigger] entries[i]).0@,
            ) && dependents_map_entries(map)[entries[i].0@] == id_set_members(entries[i].1),
        forall|url: Seq<char>| #[trigger]
            dependents_map_entries(map).dom().contains(url) ==> exists|i: int|
                0 <= i < entries.len() && (#[trigger] entries[i]).0@ == url,
{
    map.into_iter().collect()
}

} // verus!
