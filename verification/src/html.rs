//! A parsed HTML document as the walk through its tree: one edge where a node
//! is entered and one where it is left. The `scraper` crate parses the text
//! and `ego_tree` walks the tree; what the indexing rules read of each node is
//! kept, the name of an element and its `href`, and the content of a text.

use crate::text::{eq_ignore_ascii_case, eq_ignoring_ascii_case};
use crate::url::owned_text_of;
use vstd::prelude::*;

verus! {

/// What the rules read of a node.
#[derive(Debug)]
pub enum HtmlNode {
    /// An element: its local name, and the value of its `href` attribute if it
    /// has one.
    Element(String, Option<String>),
    /// A text, with its content.
    Text(String),
    /// The document itself, a doctype, a comment or a processing instruction.
    Other,
}

/// One step of the walk through the tree.
#[derive(Debug)]
pub enum HtmlEdge {
    /// A node is entered.
    Open(HtmlNode),
    /// The node that was entered last and not yet left is left.
    Close,
}

/// What a node stands for in the contracts.
pub enum NodeView {
    Element(Seq<char>, Option<Seq<char>>),
    Text(Seq<char>),
    Other,
}

/// What an edge stands for in the contracts.
pub enum EdgeView {
    Open(NodeView),
    Close,
}

/// The walk through a tree, as the contracts see it.
pub type Walk = Seq<EdgeView>;

impl View for HtmlNode {
    type V = NodeView;

    open spec fn view(&self) -> NodeView {
        match self {
            HtmlNode::Element(name, href) => NodeView::Element(name@, owned_text_of(*href)),
            HtmlNode::Text(text) => NodeView::Text(text@),
            HtmlNode::Other => NodeView::Other,
        }
    }
}

impl View for HtmlEdge {
    type V = EdgeView;

    open spec fn view(&self) -> EdgeView {
        match self {
            HtmlEdge::Open(node) => EdgeView::Open(node@),
            HtmlEdge::Close => EdgeView::Close,
        }
    }
}

/// The views of the edges of `edges`.
pub open spec fn walk_of(edges: Seq<HtmlEdge>) -> Walk {
    Seq::new(edges.len(), |i: int| edges[i]@)
}

/// The walk through the tree that `scraper::Html::parse_document` builds for
/// `html`, from the root of the document.
pub uninterp spec fn parsed_walk(html: Seq<char>) -> Walk;

/// Whether `edge` enters an element called `name`, whatever the case of the
/// ASCII letters.
pub open spec fn enters_element(edge: EdgeView, name: Seq<char>) -> bool {
    edge matches EdgeView::Open(NodeView::Element(n, _)) && eq_ignoring_ascii_case(n, name)
}

/// The positions of the nodes that are entered and not yet left before the edge
/// at position `i`, the innermost last.
pub open spec fn open_nodes(walk: Walk, i: int) -> Seq<int>
    decreases i,
{
    if i <= 0 {
        Seq::empty()
    } else {
        let before = open_nodes(walk, i - 1);
        match walk[i - 1] {
            EdgeView::Open(_) => before.push(i - 1),
            EdgeView::Close => if before.len() > 0 {
                before.drop_last()
            } else {
                before
            },
        }
    }
}

/// The position of the edge that enters the parent of the node entered at
/// position `i`, if that node has a parent.
pub open spec fn parent_of(walk: Walk, i: int) -> Option<int> {
    let open = open_nodes(walk, i);
    if open.len() > 0 {
        Some(open.last())
    } else {
        None
    }
}

/// The position of the first edge before position `n` that enters an element
/// called `name`.
pub open spec fn first_element(walk: Walk, name: Seq<char>, n: int) -> Option<int>
    decreases n,
{
    if n <= 0 {
        None
    } else {
        match first_element(walk, name, n - 1) {
            Some(found) => Some(found),
            None => if enters_element(walk[n - 1], name) {
                Some(n - 1)
            } else {
                None
            },
        }
    }
}

/// The `href` values of the elements called `name` that are entered before
/// position `n` and have one, in the order of the walk.
pub open spec fn hrefs_of(walk: Walk, name: Seq<char>, n: int) -> Seq<Seq<char>>
    decreases n,
{
    if n <= 0 {
        Seq::empty()
    } else {
        let before = hrefs_of(walk, name, n - 1);
        match walk[n - 1] {
            EdgeView::Open(NodeView::Element(found, Some(href))) => if eq_ignoring_ascii_case(
                found,
                name,
            ) {
                before.push(href)
            } else {
                before
            },
            _ => before,
        }
    }
}

/// The positions in `open_nodes` lie before `i` and go up.
pub proof fn lemma_open_nodes(walk: Walk, i: int)
    ensures
        forall|k: int|
            0 <= k < open_nodes(walk, i).len() ==> 0 <= #[trigger] open_nodes(walk, i)[k] < i,
        forall|k: int, l: int|
            0 <= k < l < open_nodes(walk, i).len() ==> open_nodes(walk, i)[k] < open_nodes(
                walk,
                i,
            )[l],
    decreases i,
{
    if i > 0 {
        lemma_open_nodes(walk, i - 1);
        let before = open_nodes(walk, i - 1);
        let now = open_nodes(walk, i);
        assert forall|k: int| 0 <= k < now.len() implies 0 <= #[trigger] now[k] < i by {
            if k < before.len() {
                assert(now[k] == before[k]);
            }
        }
        assert forall|k: int, l: int| 0 <= k < l < now.len() implies now[k] < now[l] by {
            assert(now[k] == before[k]);
            if l < before.len() {
                assert(now[l] == before[l]);
            }
        }
    }
}

/// `scraper::Html::parse_document` on `html`, and `traverse` of `ego_tree` from
/// the root of the tree that it built: each edge of the walk, with the element's
/// name and `href` or the text's content copied out of the node.
#[verifier::external_body]
fn parse_walk(html: &str) -> (r: Vec<HtmlEdge>)
    ensures
        walk_of(r@) == parsed_walk(html@),
{
    scraper::Html::parse_document(html).tree.root().traverse().map(|edge| match edge {
        ego_tree::iter::Edge::Open(node) => HtmlEdge::Open(match node.value() {
            scraper::Node::Element(e) => {
                HtmlNode::Element(e.name().to_string(), e.attr("href").map(|h| h.to_string()))
            },
            scraper::Node::Text(t) => HtmlNode::Text(t.to_string()),
            _ => HtmlNode::Other,
        }),
        ego_tree::iter::Edge::Close(_) => HtmlEdge::Close,
    }).collect()
}

/// A parsed HTML document.
#[derive(Debug)]
pub struct Document {
    /// The walk through the tree of the document.
    pub edges: Vec<HtmlEdge>,
}

impl View for Document {
    type V = Walk;

    open spec fn view(&self) -> Walk {
        walk_of(self.edges@)
    }
}

impl Document {
    /// Parses `html` as a document.
    pub fn parse_document(html: &str) -> (r: Document)
        ensures
            r@ == parsed_walk(html@),
    {
        Document { edges: parse_walk(html) }
    }

    /// The document with the walk `edges`.
    pub fn new(edges: Vec<HtmlEdge>) -> (r: Document)
        ensures
            r@ == walk_of(edges@),
    {
        Document { edges }
    }

    /// Whether the edge at position `i` enters an element called `name`.
    pub fn enters(&self, i: usize, name: &str) -> (r: bool)
        requires
            i < self@.len(),
        ensures
            r == enters_element(self@[i as int], name@),
    {
        match &self.edges[i] {
            HtmlEdge::Open(HtmlNode::Element(found, _)) => eq_ignore_ascii_case(
                found.as_str(),
                name,
            ),
            _ => false,
        }
    }

    /// The `href` of the first element called `name`: `None` where the document
    /// has no such element, `Some(None)` where the first one has no `href`.
    pub fn first_href(&self, name: &str) -> (r: Option<Option<String>>)
        ensures
            match first_element(self@, name@, self@.len() as int) {
                Some(at) => r is Some && (self@[at] matches EdgeView::Open(
                    NodeView::Element(_, href),
                ) && owned_text_of(r->0) == href),
                None => r is None,
            },
    {
        let mut i: usize = 0;
        while i < self.edges.len()
            invariant
                i <= self.edges.len(),
                first_element(self@, name@, i as int) is None,
            decreases self.edges.len() - i,
        {
            if self.enters(i, name) {
                proof {
                    lemma_first_element_stays(self@, name@, i as int + 1, self@.len() as int);
                }
                match &self.edges[i] {
                    HtmlEdge::Open(HtmlNode::Element(_, href)) => {
                        return Some(
                            match href {
                                Some(h) => Some(h.clone()),
                                None => None,
                            },
                        );
                    },
                    _ => {
                        return None;
                    },
                }
            }
            i = i + 1;
        }
        None
    }

    /// The `href` values of the elements called `name` that have one, in the
    /// order of the walk.
    pub fn hrefs(&self, name: &str) -> (r: Vec<String>)
        ensures
            crate::text::views_of(r@) == hrefs_of(self@, name@, self@.len() as int),
    {
        let mut out: Vec<String> = Vec::new();
        let mut i: usize = 0;
        assert(crate::text::views_of(out@) =~= hrefs_of(self@, name@, 0));
        while i < self.edges.len()
            invariant
                i <= self.edges.len(),
                crate::text::views_of(out@) == hrefs_of(self@, name@, i as int),
            decreases self.edges.len() - i,
        {
            let ghost before = crate::text::views_of(out@);
            if self.enters(i, name) {
                match &self.edges[i] {
                    HtmlEdge::Open(HtmlNode::Element(_, Some(href))) => {
                        out.push(href.clone());
                        assert(crate::text::views_of(out@) =~= before.push(href@));
                    },
                    _ => {},
                }
            }
            i = i + 1;
        }
        out
    }
}

/// Once an element called `name` is found, the first one stays the first.
pub proof fn lemma_first_element_stays(walk: Walk, name: Seq<char>, n: int, m: int)
    requires
        first_element(walk, name, n) is Some,
        n <= m,
    ensures
        first_element(walk, name, m) == first_element(walk, name, n),
    decreases m - n,
{
    if n < m {
        lemma_first_element_stays(walk, name, n, m - 1);
    }
}

} // verus!
