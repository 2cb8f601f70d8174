//! From exported issues to the graph.

use indexmap::IndexSet;
use std::borrow::Cow;
use vstd::prelude::*;
use vstd::string::*;

use crate::builder::{ingested, resolved, FlowchartBuilder};
use crate::chart::{has_id, FilterView, Flowchart, Node, NodeId, NodeView};
use crate::github::{repository_of, GithubIssue, Timestamp};
use crate::ordered::{id_set_new, string_set_insert, string_set_items, string_set_new};
use crate::parse::{relation_views, relations, relations_in, warnings_in, Relation, RelationView};
use crate::warning::{warning_views, Warning, WarningView};

verus! {

/// Why no graph could be built.
#[derive(Debug, Clone, Copy, PartialEq, Eq, Structural)]
pub enum BuildError {
    /// There are more issues than ids.
    CounterOverflow,
}

/// `items` without the repetitions: of equal strings the first stays.
pub open spec fn unique(items: Seq<Seq<char>>) -> Seq<Seq<char>>
    decreases items.len(),
{
    if items.len() == 0 {
        seq![]
    } else if unique(items.drop_last()).contains(items.last()) {
        unique(items.drop_last())
    } else {
        unique(items.drop_last()).push(items.last())
    }
}

/// The URLs that the relations point to.
pub open spec fn targets(relations: Seq<RelationView>) -> Seq<Seq<char>> {
    relations.map_values(|relation: RelationView| relation.target)
}

/// The URLs that an issue depends on: those that the relations in its body
/// point to, each once. None, where the repository cannot be read from the URL
/// of the issue.
pub open spec fn dependencies_of(issue: GithubIssue) -> Seq<Seq<char>> {
    match repository_of(issue.url@) {
        Some(repository) => unique(targets(relations_in(issue.body@, repository))),
        None => seq![],
    }
}

/// The warnings that an issue gives rise to: those of its body, or the one
/// that says that its repository cannot be read from its URL.
pub open spec fn warnings_of(issue: GithubIssue) -> Seq<WarningView> {
    match repository_of(issue.url@) {
        Some(repository) => warnings_in(issue.body@, repository, issue.title@),
        None => seq![WarningView::UnparseableRepository { url: issue.url@ }],
    }
}

/// The node that stands for an issue, under the id `id`.
pub open spec fn node_of(issue: GithubIssue, id: usize) -> NodeView {
    NodeView {
        id: NodeId(id),
        text: issue.title@,
        url: issue.url@,
        state: issue.state,
        labels: issue.labels.deep_view(),
        project_titles: unique(issue.project_titles.deep_view()),
        depends_on_urls: dependencies_of(issue),
        depends_on_ids: Set::empty(),
        depended_on_by_ids: Set::empty(),
        updated_at: issue.updated_at,
    }
}

/// The nodes that stand for the first `count` of `issues`, numbered from
/// `first_id` on.
pub open spec fn nodes_of(issues: Seq<GithubIssue>, first_id: int, count: int) -> Seq<NodeView>
    decreases count,
{
    if count <= 0 {
        seq![]
    } else {
        nodes_of(issues, first_id, count - 1).push(
            node_of(issues[count - 1], (first_id + count - 1) as usize),
        )
    }
}

/// The warnings that the first `count` of `issues` give rise to.
pub open spec fn all_warnings(issues: Seq<GithubIssue>, count: int) -> Seq<WarningView>
    decreases count,
{
    if count <= 0 {
        seq![]
    } else {
        all_warnings(issues, count - 1) + warnings_of(issues[count - 1])
    }
}

/// The strings of `items` as a set, each once, in their order.
pub fn unique_strings(items: &Vec<String>) -> (set: IndexSet<String>)
    ensures
        string_set_items(set) == unique(items.deep_view()),
{
    let mut set = string_set_new();
    let mut i: usize = 0;
    while i < items.len()
        invariant
            i <= items.len(),
            string_set_items(set) == unique(items.deep_view().take(i as int)),
        decreases items.len() - i,
    {
        proof {
            let done = items.deep_view().take(i + 1);
            assert(done.drop_last() =~= items.deep_view().take(i as int));
            assert(done.last() == items[i as int]@);
        }
        string_set_insert(&mut set, items[i].clone());
        i += 1;
    }
    assert(items.deep_view().take(i as int) =~= items.deep_view());
    set
}

/// The URLs that `relations` point to as a set, each once, in their order.
pub fn unique_targets(relations: Vec<Relation>) -> (set: IndexSet<String>)
    ensures
        string_set_items(set) == unique(targets(relation_views(relations@))),
{
    let mut set = string_set_new();
    let ghost all = targets(relation_views(relations@));
    for relation in it: relations
        invariant
            it.seq() == relations@,
            all == targets(relation_views(relations@)),
            string_set_items(set) == unique(all.take(it.index() as int)),
    {
        proof {
            let done = all.take(it.index() + 1);
            assert(done.drop_last() =~= all.take(it.index() as int));
            assert(done.last() == relation@.target);
        }
        let target = match relation.target {
            Cow::Borrowed(borrowed) => borrowed.to_owned(),
            Cow::Owned(owned) => owned,
        };
        string_set_insert(&mut set, target);
    }
    assert(all.take(relations@.len() as int) =~= all);
    set
}

/// Every id of `nodes` is below `bound`.
pub open spec fn ids_below(nodes: Seq<NodeView>, bound: int) -> bool {
    forall|i: int| 0 <= i < nodes.len() ==> (#[trigger] nodes[i]).id.0 < bound
}

/// The URLs that an issue depends on, and the warnings that it gives rise to.
fn dependencies(issue: &GithubIssue) -> (r: (IndexSet<String>, Vec<Warning>))
    ensures
        string_set_items(r.0) == dependencies_of(*issue),
        warning_views(r.1@) == warnings_of(*issue),
{
    match issue.repository() {
        Some(repository) => {
            // Parse dependencies from the body text.
            let extraction = relations(issue.body.as_str(), repository, issue.title.as_str());
            // Use a set to dedupe the dependencies.
            (unique_targets(extraction.relations), extraction.warnings)
        },
        None => {
            let mut warnings: Vec<Warning> = Vec::new();
            let warning = Warning::UnparseableRepository { url: issue.url.clone() };
            warnings.push(warning);
            assert(warning_views(warnings@) =~= seq![warning@]);
            (string_set_new(), warnings)
        },
    }
}

/// Takes `issues` into `builder`, one node for each, in their order. The
/// first node gets the id `first_id`, each further one the next id. As soon
/// as a node has got the last id that there is, the work ends with
/// `CounterOverflow`; the nodes up to that one are in the builder then.
pub fn ingest(builder: &mut FlowchartBuilder, issues: Vec<GithubIssue>, first_id: usize) -> (r:
    Result<Vec<Warning>, BuildError>)
    requires
        old(builder).wf(),
        ids_below(old(builder).nodes(), first_id as int),
    ensures
        final(builder).wf(),
        final(builder).title() == old(builder).title(),
        final(builder).show_all() == old(builder).show_all(),
        final(builder).filter() == old(builder).filter(),
        match r {
            Ok(warnings) => {
                &&& first_id + issues.len() <= usize::MAX
                &&& final(builder).nodes() == old(builder).nodes() + nodes_of(
                    issues@,
                    first_id as int,
                    issues.len() as int,
                )
                &&& warning_views(warnings@) == all_warnings(issues@, issues.len() as int)
            },
            Err(error) => {
                &&& first_id + issues.len() > usize::MAX
                &&& final(builder).nodes() == old(builder).nodes() + nodes_of(
                    issues@,
                    first_id as int,
                    usize::MAX - first_id + 1,
                )
            },
        },
{
    let ghost before = builder.nodes();
    let mut warnings: Vec<Warning> = Vec::new();
    let mut id = first_id;
    for issue in it: issues
        invariant
            it.seq() == issues@,
            before == old(builder).nodes(),
            builder.wf(),
            builder.title() == old(builder).title(),
            builder.show_all() == old(builder).show_all(),
            builder.filter() == old(builder).filter(),
            id == first_id + it.index(),
            ids_below(builder.nodes(), id as int),
            builder.nodes() == before + nodes_of(issues@, first_id as int, it.index() as int),
            warning_views(warnings@) == all_warnings(issues@, it.index() as int),
    {
        let ghost done = builder.nodes();
        let ghost warned = warnings@;
        let (depends_on_urls, mut new_warnings) = dependencies(&issue);
        let ghost added = new_warnings@;
        warnings.append(&mut new_warnings);
        assert(warning_views(warnings@) =~= warning_views(warned) + warning_views(added));
        let project_titles = unique_strings(&issue.project_titles);
        let node = Node {
            id: NodeId::new(id),
            text: issue.title,
            url: issue.url,
            state: issue.state,
            labels: issue.labels,
            project_titles,
            depends_on_urls,
            depends_on_ids: id_set_new(),
            depended_on_by_ids: id_set_new(),
            updated_at: issue.updated_at,
        };
        assert(node@ =~= node_of(issue, id));
        assert(ingested(node@) =~= node@);
        assert(!has_id(done, id));
        builder.insert(node);
        proof {
            let count = it.index() as int;
            assert(builder.nodes() =~= before + nodes_of(issues@, first_id as int, count + 1));
        }
        id = match id.checked_add(1) {
            Some(next) => next,
            None => {
                assert(usize::MAX - first_id + 1 == it.index() + 1);
                return Err(BuildError::CounterOverflow);
            },
        };
    }
    Ok(warnings)
}

/// The graph of some issues, and what was passed over on the way.
#[derive(Debug)]
pub struct Dependencies {
    pub flowchart: Flowchart,
    pub warnings: Vec<Warning>,
}

/// Builds the graph of `issues`: one node for each issue, numbered from 1
/// in their order, with the relations that the bodies of the issues state.
/// `CounterOverflow`, where there are more issues than ids.
pub fn build_dependencies(
    title: String,
    all: bool,
    include_project_only: Option<String>,
    updated_after: Option<Timestamp>,
    issues: Vec<GithubIssue>,
) -> (r: Result<Dependencies, BuildError>)
    ensures
        match r {
            Ok(dependencies) => {
                &&& issues.len() < usize::MAX
                &&& dependencies.flowchart.wf()
                &&& dependencies.flowchart.nodes() == resolved(
                    nodes_of(issues@, 1, issues.len() as int),
                )
                &&& dependencies.flowchart.title() == title@
                &&& dependencies.flowchart.show_all() == all
                &&& dependencies.flowchart.filter() == (FilterView {
                    include_project_only: include_project_only.deep_view(),
                    updated_after,
                })
                &&& warning_views(dependencies.warnings@) == all_warnings(
                    issues@,
                    issues.len() as int,
                )
            },
            Err(error) => issues.len() >= usize::MAX,
        },
{
    let mut builder = FlowchartBuilder::new(title, all, include_project_only, updated_after);
    match ingest(&mut builder, issues, 1) {
        Ok(warnings) => {
            assert(builder.nodes() =~= nodes_of(issues@, 1, issues.len() as int));
            Ok(Dependencies { flowchart: builder.build(), warnings })
        },
        Err(error) => Err(error),
    }
}

} // verus!
