//! The graph as the text of a flowchart.

use vstd::prelude::*;
use vstd::string::*;

use crate::chart::{node_by_url, FilterView, Flowchart, Node, NodeView};
use crate::github::GithubIssueState;
use crate::ordered::{node_map_len, string_set_get, string_set_len};
use crate::text::{chars_of, decimal, push_decimal};

verus! {

/// What stands for a character between quotation marks: `#` and `"` are
/// written as entities, the rest as it is.
pub open spec fn escaped_char(c: char) -> Seq<char> {
    if c == '#' {
        "#35;"@
    } else if c == '"' {
        "#quot;"@
    } else {
        seq![c]
    }
}

/// What stands for the characters of `text` between quotation marks.
pub open spec fn escaped(text: Seq<char>) -> Seq<char>
    decreases text.len(),
{
    if text.len() == 0 {
        seq![]
    } else {
        escaped(text.drop_last()) + escaped_char(text.last())
    }
}

/// `text` between quotation marks, with what would end the quotation or
/// start an entity written as an entity.
pub open spec fn quoted(text: Seq<char>) -> Seq<char> {
    "\""@ + escaped(text) + "\""@
}

/// See <https://mermaid.js.org/syntax/flowchart.html#special-characters-that-break-syntax>
pub fn mermaid_quote(text: &str) -> (r: String)
    ensures
        r@ == quoted(text@),
{
    let chars = chars_of(text);
    let mut out = "\"".to_owned();
    let mut i: usize = 0;
    while i < chars.len()
        invariant
            i <= chars.len(),
            chars@ == text@,
            out@ == "\""@ + escaped(text@.take(i as int)),
        decreases chars.len() - i,
    {
        let c = chars[i];
        let ghost before = out@;
        if c == '#' {
            out.append("#35;");
        } else if c == '"' {
            out.append("#quot;");
        } else {
            out.push(c);
            assert(before.push(c) =~= before + seq![c]);
        }
        proof {
            let done = text@.take(i + 1);
            assert(done.drop_last() =~= text@.take(i as int));
            assert(out@ =~= "\""@ + escaped(done));
        }
        i += 1;
    }
    assert(text@.take(i as int) =~= text@);
    out.append("\"");
    out
}

/// A graph as a plain value.
pub struct FlowchartView {
    pub title: Seq<char>,
    pub nodes: Seq<NodeView>,
    pub url_index: Map<Seq<char>, usize>,
    pub show_all: bool,
    pub filter: FilterView,
}

impl FlowchartView {
    /// Whether a node is drawn: the graph shows all, or the node passes
    /// the filter.
    pub open spec fn shows(self, node: NodeView) -> bool {
        self.show_all || node.passes_filter(self.filter)
    }

    /// What opens the flowchart: the title, if there is one, the kind of
    /// chart, and a class for each state.
    pub open spec fn header(self) -> Seq<char> {
        (if self.title.len() > 0 {
            "---\ntitle:"@ + self.title + "\n---\n"@
        } else {
            seq![]
        }) + "flowchart LR\n"@
            + "  classDef state-closed stroke:#7048D4,stroke-width:8px,color:#636871\n"@
            + "  classDef state-open stroke:#317236,stroke-width:8px\n"@
    }

    /// The line that declares a node: its id, and its text where it has one.
    pub open spec fn declaration(node: NodeView) -> Seq<char> {
        "  "@ + decimal(node.id.0 as nat) + (if node.text.len() > 0 {
            "("@ + quoted(node.text) + ")"@
        } else {
            seq![]
        }) + "\n"@
    }

    /// The line that gives a node the class of its state.
    pub open spec fn class(node: NodeView) -> Seq<char> {
        "  class "@ + decimal(node.id.0 as nat) + (match node.state {
            GithubIssueState::Open => " state-open\n"@,
            GithubIssueState::Closed => " state-closed\n"@,
        })
    }

    /// The line that links a node to its URL; nothing for a node without URL.
    pub open spec fn link(node: NodeView) -> Seq<char> {
        if node.url.len() > 0 {
            "  click "@ + decimal(node.id.0 as nat) + " "@ + quoted(node.url) + "\n"@
        } else {
            seq![]
        }
    }

    /// The lines of a node: its declaration, its class and its link.
    pub open spec fn node_lines(node: NodeView) -> Seq<char> {
        Self::declaration(node) + Self::class(node) + Self::link(node)
    }

    /// The line of an edge from the node `from` to the node `to`.
    pub open spec fn edge_line(from: usize, to: usize) -> Seq<char> {
        "  "@ + decimal(from as nat) + " --> "@ + decimal(to as nat) + "\n"@
    }

    /// The node that `url` leads to, if it is one that is drawn.
    pub open spec fn prerequisite(self, url: Seq<char>) -> Option<NodeView> {
        match node_by_url(self.url_index, self.nodes, url) {
            Some(node) => if self.shows(node) {
                Some(node)
            } else {
                None
            },
            None => None,
        }
    }

    /// The line of the edge that the URL at `k` among those that `node`
    /// depends on gives rise to; nothing, where the URL leads to no node that
    /// is drawn.
    pub open spec fn edge_of(self, node: NodeView, k: int) -> Seq<char> {
        match self.prerequisite(node.depends_on_urls[k]) {
            Some(from) => Self::edge_line(from.id.0, node.id.0),
            None => seq![],
        }
    }

    /// The lines of the edges of the first `count` URLs that `node` depends
    /// on.
    pub open spec fn edge_lines(self, node: NodeView, count: int) -> Seq<char>
        decreases count,
    {
        if count <= 0 {
            seq![]
        } else {
            self.edge_lines(node, count - 1) + self.edge_of(node, count - 1)
        }
    }

    /// What the node at `i` adds to the flowchart: its lines and those of
    /// the edges that lead to it, where the node is drawn.
    pub open spec fn block(self, i: int) -> Seq<char> {
        let node = self.nodes[i];
        if self.shows(node) {
            Self::node_lines(node) + self.edge_lines(node, node.depends_on_urls.len() as int)
        } else {
            seq![]
        }
    }

    /// What the first `count` nodes add to the flowchart.
    pub open spec fn blocks(self, count: int) -> Seq<char>
        decreases count,
    {
        if count <= 0 {
            seq![]
        } else {
            self.blocks(count - 1) + self.block(count - 1)
        }
    }

    /// The text of the flowchart.
    pub open spec fn rendered(self) -> Seq<char> {
        self.header() + self.blocks(self.nodes.len() as int)
    }
}

impl Flowchart {
    /// The graph as a plain value.
    pub open spec fn view(&self) -> FlowchartView {
        FlowchartView {
            title: self.title(),
            nodes: self.nodes(),
            url_index: self.url_index(),
            show_all: self.show_all(),
            filter: self.filter(),
        }
    }

    fn push_declaration(out: &mut String, node: &Node)
        ensures
            final(out)@ == old(out)@ + FlowchartView::declaration(node@),
    {
        let ghost start = out@;
        out.append("  ");
        push_decimal(out, node.id.0);
        if !node.text.as_str().is_empty() {
            out.append("(");
            out.append(mermaid_quote(node.text.as_str()).as_str());
            out.append(")");
        }
        out.append("\n");
        assert(out@ =~= start + FlowchartView::declaration(node@));
    }

    fn push_class(out: &mut String, node: &Node)
        ensures
            final(out)@ == old(out)@ + FlowchartView::class(node@),
    {
        let ghost start = out@;
        out.append("  class ");
        push_decimal(out, node.id.0);
        match node.state {
            GithubIssueState::Open => {
                out.append(" state-open\n");
            },
            GithubIssueState::Closed => {
                out.append(" state-closed\n");
            },
        }
        assert(out@ =~= start + FlowchartView::class(node@));
    }

    fn push_link(out: &mut String, node: &Node)
        ensures
            final(out)@ == old(out)@ + FlowchartView::link(node@),
    {
        let ghost start = out@;
        if !node.url.as_str().is_empty() {
            out.append("  click ");
            push_decimal(out, node.id.0);
            out.append(" ");
            out.append(mermaid_quote(node.url.as_str()).as_str());
            out.append("\n");
        }
        assert(out@ =~= start + FlowchartView::link(node@));
    }

    fn push_node_lines(out: &mut String, node: &Node)
        ensures
            final(out)@ == old(out)@ + FlowchartView::node_lines(node@),
    {
        let ghost start = out@;
        Self::push_declaration(out, node);
        Self::push_class(out, node);
        Self::push_link(out, node);
        assert(out@ =~= start + FlowchartView::node_lines(node@));
    }

    fn push_edge_lines(&self, out: &mut String, node: &Node)
        requires
            self.wf(),
        ensures
            final(out)@ == old(out)@ + self.view().edge_lines(
                node@,
                node@.depends_on_urls.len() as int,
            ),
    {
        let ghost start = out@;
        let ghost chart = self.view();
        proof {
            self.lemma_parts();
        }
        let count = string_set_len(&node.depends_on_urls);
        let mut k: usize = 0;
        while k < count
            invariant
                k <= count,
                self.wf(),
                chart == self.view(),
                chart.show_all == self.show_all,
                chart.filter == self.filter@,
                count == node@.depends_on_urls.len(),
                out@ == start + chart.edge_lines(node@, k as int),
            decreases count - k,
        {
            let ghost before = out@;
            if let Some(depends_on_url) = string_set_get(&node.depends_on_urls, k) {
                if let Some(prerequisite) = self.get_node_by_url(depends_on_url.as_str()) {
                    if self.show_all || prerequisite.passes_filter(&self.filter) {
                        out.append("  ");
                        push_decimal(out, prerequisite.id.0);
                        out.append(" --> ");
                        push_decimal(out, node.id.0);
                        out.append("\n");
                    }
                }
            }
            proof {
                assert(out@ =~= before + chart.edge_of(node@, k as int));
                assert(out@ =~= start + chart.edge_lines(node@, k + 1));
            }
            k += 1;
        }
    }

    /// The text of the flowchart: a header, then for each node that is
    /// drawn its lines and an edge from each node that it depends on and that
    /// is drawn too, in the order of the graph.
    pub fn to_string(&self) -> (text: String)
        requires
            self.wf(),
        ensures
            text@ == self.view().rendered(),
    {
        let ghost chart = self.view();
        proof {
            self.lemma_parts();
        }
        let mut out = String::new();
        if !self.title.as_str().is_empty() {
            out.append("---\ntitle:");
            out.append(self.title.as_str());
            out.append("\n---\n");
        }
        out.append("flowchart LR\n");
        // Purple border. Gray text.
        out.append("  classDef state-closed stroke:#7048D4,stroke-width:8px,color:#636871\n");
        // Green border.
        out.append("  classDef state-open stroke:#317236,stroke-width:8px\n");
        assert(out@ =~= chart.header());

        let count = node_map_len(&self.nodes_by_id);
        let mut i: usize = 0;
        while i < count
            invariant
                i <= count,
                self.wf(),
                chart == self.view(),
                chart.show_all == self.show_all,
                chart.filter == self.filter@,
                count == chart.nodes.len(),
                out@ == chart.header() + chart.blocks(i as int),
            decreases count - i,
        {
            let ghost before = out@;
            if let Some(node) = self.get_node_by_index(i) {
                // Does it pass the filter?
                if self.show_all || node.passes_filter(&self.filter) {
                    Self::push_node_lines(&mut out, node);
                    self.push_edge_lines(&mut out, node);
                }
            }
            proof {
                assert(out@ =~= before + chart.block(i as int));
                assert(out@ =~= chart.header() + chart.blocks(i + 1));
            }
            i += 1;
        }
        out
    }
}

/// Whether `part` stands somewhere in `whole`, without a gap.
pub open spec fn occurs_in(part: Seq<char>, whole: Seq<char>) -> bool {
    exists|before: Seq<char>, after: Seq<char>| whole == #[trigger] (before + part + after)
}

/// What stands in a part of a text stands in the text.
proof fn lemma_occurs_in_part(
    inner: Seq<char>,
    before: Seq<char>,
    part: Seq<char>,
    after: Seq<char>,
)
    requires
        occurs_in(inner, part),
    ensures
        occurs_in(inner, before + part + after),
{
    let (left, right) = choose|left: Seq<char>, right: Seq<char>|
        part == #[trigger] (left + inner + right);
    assert(before + part + after =~= (before + left) + inner + (right + after));
}

/// The block of one of the first `count` nodes stands in what these nodes
/// add to the flowchart.
proof fn lemma_block_in_blocks(chart: FlowchartView, i: int, count: int)
    requires
        0 <= i < count,
    ensures
        occurs_in(chart.block(i), chart.blocks(count)),
    decreases count,
{
    let empty = Seq::<char>::empty();
    if i == count - 1 {
        assert(chart.blocks(count) =~= chart.blocks(count - 1) + chart.block(i) + empty);
    } else {
        lemma_block_in_blocks(chart, i, count - 1);
        lemma_occurs_in_part(
            chart.block(i),
            empty,
            chart.blocks(count - 1),
            chart.block(count - 1),
        );
        assert(chart.blocks(count) =~= empty + chart.blocks(count - 1) + chart.block(count - 1));
    }
}

/// The line of the edge of one of the first `count` URLs stands among the
/// lines of these edges.
proof fn lemma_edge_in_edge_lines(chart: FlowchartView, node: NodeView, k: int, count: int)
    requires
        0 <= k < count,
    ensures
        occurs_in(chart.edge_of(node, k), chart.edge_lines(node, count)),
    decreases count,
{
    let empty = Seq::<char>::empty();
    if k == count - 1 {
        assert(chart.edge_lines(node, count) =~= chart.edge_lines(node, count - 1) + chart.edge_of(
            node,
            k,
        ) + empty);
    } else {
        lemma_edge_in_edge_lines(chart, node, k, count - 1);
        lemma_occurs_in_part(
            chart.edge_of(node, k),
            empty,
            chart.edge_lines(node, count - 1),
            chart.edge_of(node, count - 1),
        );
        assert(chart.edge_lines(node, count) =~= empty + chart.edge_lines(node, count - 1)
            + chart.edge_of(node, count - 1));
    }
}

/// The lines of a node that is drawn stand in the text of the flowchart.
pub proof fn lemma_rendered_includes_node(chart: FlowchartView, i: int)
    requires
        0 <= i < chart.nodes.len(),
        chart.shows(chart.nodes[i]),
    ensures
        occurs_in(FlowchartView::node_lines(chart.nodes[i]), chart.rendered()),
{
    let empty = Seq::<char>::empty();
    let node = chart.nodes[i];
    let lines = FlowchartView::node_lines(node);
    let edges = chart.edge_lines(node, node.depends_on_urls.len() as int);
    let all = chart.blocks(chart.nodes.len() as int);
    assert(chart.block(i) =~= empty + lines + edges);
    lemma_block_in_blocks(chart, i, chart.nodes.len() as int);
    let (left, right) = choose|left: Seq<char>, right: Seq<char>|
        all == #[trigger] (left + chart.block(i) + right);
    lemma_occurs_in_part(lines, left, chart.block(i), right);
    lemma_occurs_in_part(lines, chart.header(), all, empty);
    assert(chart.rendered() =~= chart.header() + all + empty);
}

/// Where a node is drawn, and a URL that it depends on leads to a node
/// that is drawn, the line of the edge between the two stands in the text of
/// the flowchart.
pub proof fn lemma_rendered_includes_edge(chart: FlowchartView, i: int, k: int)
    requires
        0 <= i < chart.nodes.len(),
        chart.shows(chart.nodes[i]),
        0 <= k < chart.nodes[i].depends_on_urls.len(),
        chart.prerequisite(chart.nodes[i].depends_on_urls[k]) is Some,
    ensures
        occurs_in(
            FlowchartView::edge_line(
                chart.prerequisite(chart.nodes[i].depends_on_urls[k])->0.id.0,
                chart.nodes[i].id.0,
            ),
            chart.rendered(),
        ),
{
    let empty = Seq::<char>::empty();
    let node = chart.nodes[i];
    let count = node.depends_on_urls.len() as int;
    let edge = chart.edge_of(node, k);
    let all = chart.blocks(chart.nodes.len() as int);
    lemma_edge_in_edge_lines(chart, node, k, count);
    lemma_occurs_in_part(
        edge,
        FlowchartView::node_lines(node),
        chart.edge_lines(node, count),
        empty,
    );
    assert(chart.block(i) =~= FlowchartView::node_lines(node) + chart.edge_lines(node, count)
        + empty);
    lemma_block_in_blocks(chart, i, chart.nodes.len() as int);
    let (left, right) = choose|left: Seq<char>, right: Seq<char>|
        all == #[trigger] (left + chart.block(i) + right);
    lemma_occurs_in_part(edge, left, chart.block(i), right);
    lemma_occurs_in_part(edge, chart.header(), all, empty);
    assert(chart.rendered() =~= chart.header() + all + empty);
}

/// A graph that shows all draws every node, whatever the filter says of
/// it, and every edge between a node and a node that a URL it depends on
/// leads to.
pub proof fn lemma_show_all_renders_everything(chart: FlowchartView)
    requires
        chart.show_all,
    ensures
        forall|i: int|
            0 <= i < chart.nodes.len() ==> occurs_in(
                FlowchartView::node_lines(#[trigger] chart.nodes[i]),
                chart.rendered(),
            ),
        forall|i: int, k: int|
            0 <= i < chart.nodes.len() && 0 <= k < chart.nodes[i].depends_on_urls.len()
                && node_by_url(
                chart.url_index,
                chart.nodes,
                #[trigger] chart.nodes[i].depends_on_urls[k],
            ) is Some ==> occurs_in(
                FlowchartView::edge_line(
                    node_by_url(
                        chart.url_index,
                        chart.nodes,
                        chart.nodes[i].depends_on_urls[k],
                    )->0.id.0,
                    chart.nodes[i].id.0,
                ),
                chart.rendered(),
            ),
{
    assert forall|i: int| 0 <= i < chart.nodes.len() implies occurs_in(
        FlowchartView::node_lines(#[trigger] chart.nodes[i]),
        chart.rendered(),
    ) by {
        lemma_rendered_includes_node(chart, i);
    }
    assert forall|i: int, k: int|
        0 <= i < chart.nodes.len() && 0 <= k < chart.nodes[i].depends_on_urls.len()
            && node_by_url(
            chart.url_index,
            chart.nodes,
            #[trigger] chart.nodes[i].depends_on_urls[k],
        ) is Some implies occurs_in(
        FlowchartView::edge_line(
            node_by_url(chart.url_index, chart.nodes, chart.nodes[i].depends_on_urls[k])->0.id.0,
            chart.nodes[i].id.0,
        ),
        chart.rendered(),
    ) by {
        lemma_rendered_includes_edge(chart, i, k);
    }
}

} // verus!
