//! The visible text of a page: the texts below the first `body`, without those
//! that stand directly in a `script` or `style` element.

use crate::html::{
    enters_element, first_element, lemma_open_nodes, open_nodes, parent_of, Document, EdgeView,
    HtmlEdge, HtmlNode, NodeView, Walk,
};
use crate::text::{join, joined, trim, trimmed, views_of};
use vstd::prelude::*;
use vstd::string::StringExecFns;

verus! {

/// The names of the elements whose texts are not part of the visible text.
pub fn get_skip_elements() -> (r: Vec<&'static str>)
    ensures
        r@.len() == 2,
        r@[0]@ == "script"@,
        r@[1]@ == "style"@,
{
    let mut names: Vec<&'static str> = Vec::new();
    names.push("script");
    names.push("style");
    names
}

/// Whether `edge` enters a `script` or a `style` element.
pub open spec fn is_skip_element(edge: EdgeView) -> bool {
    enters_element(edge, "script"@) || enters_element(edge, "style"@)
}

/// Whether the node entered at position `i` has a parent, and that parent is a
/// `script` or a `style` element.
pub open spec fn has_skipped_parent(walk: Walk, i: int) -> bool {
    match parent_of(walk, i) {
        Some(p) => is_skip_element(walk[p]),
        None => false,
    }
}

/// Whether the node entered at position `i` lies below the node entered at
/// position `root`.
pub open spec fn is_below(walk: Walk, root: int, i: int) -> bool {
    open_nodes(walk, i).contains(root)
}

/// Whether the edge at position `i` enters a text that belongs to the visible
/// text of the body entered at position `body`.
pub open spec fn is_collected(walk: Walk, body: int, i: int) -> bool {
    &&& 0 <= i < walk.len()
    &&& walk[i] matches EdgeView::Open(NodeView::Text(_))
    &&& is_below(walk, body, i)
    &&& !has_skipped_parent(walk, i)
}

/// The content of the text that the edge at position `i` enters.
pub open spec fn text_at(walk: Walk, i: int) -> Seq<char> {
    match walk[i] {
        EdgeView::Open(NodeView::Text(t)) => t,
        _ => Seq::empty(),
    }
}

/// The trimmed texts of the visible text of the body entered at position
/// `body`, as far as they are entered before position `n`, in the order of
/// the walk.
pub open spec fn collected_texts(walk: Walk, body: int, n: int) -> Seq<Seq<char>>
    decreases n,
{
    if n <= 0 {
        Seq::empty()
    } else {
        let before = collected_texts(walk, body, n - 1);
        if is_collected(walk, body, n - 1) {
            before.push(trimmed(text_at(walk, n - 1)))
        } else {
            before
        }
    }
}

/// The visible text of a document: the collected texts of its first `body`,
/// joined by single spaces; `None` where the document has no `body` or the
/// text is empty.
pub open spec fn body_text(walk: Walk) -> Option<Seq<char>> {
    match first_element(walk, "body"@, walk.len() as int) {
        Some(body) => {
            let text = joined(collected_texts(walk, body, walk.len() as int), seq![' ']);
            if text.len() == 0 {
                None
            } else {
                Some(text)
            }
        },
        None => None,
    }
}

/// No text is collected before its body is entered.
pub proof fn lemma_nothing_collected_before(walk: Walk, body: int, n: int)
    requires
        n <= body + 1,
    ensures
        collected_texts(walk, body, n) == Seq::<Seq<char>>::empty(),
    decreases n,
{
    if n > 0 {
        lemma_nothing_collected_before(walk, body, n - 1);
        lemma_open_nodes(walk, n - 1);
        let open = open_nodes(walk, n - 1);
        if open.contains(body) {
            let k = choose|k: int| 0 <= k < open.len() && open[k] == body;
            assert(open[k] < n - 1);
        }
    }
}

/// A text that stands directly in a `script` or a `style` element is no part of
/// the visible text, whichever element is the body.
pub proof fn law_skipped_text_is_not_collected(walk: Walk, body: int, i: int)
    requires
        has_skipped_parent(walk, i),
    ensures
        !is_collected(walk, body, i),
{
}

/// Every part of the visible text is the trimmed content of a text that lies
/// below the body and does not stand directly in a `script` or a `style`
/// element.
pub proof fn law_collected_texts_are_visible(walk: Walk, body: int, n: int, k: int)
    requires
        0 <= k < collected_texts(walk, body, n).len(),
    ensures
        exists|i: int|
            0 <= i < n && #[trigger] is_collected(walk, body, i) && !has_skipped_parent(walk, i)
                && collected_texts(walk, body, n)[k] == trimmed(text_at(walk, i)),
    decreases n,
{
    if n > 0 {
        let before = collected_texts(walk, body, n - 1);
        if k < before.len() {
            law_collected_texts_are_visible(walk, body, n - 1, k);
            let i = choose|i: int|
                0 <= i < n - 1 && #[trigger] is_collected(walk, body, i) && !has_skipped_parent(
                    walk,
                    i,
                ) && before[k] == trimmed(text_at(walk, i));
            assert(is_collected(walk, body, i));
        } else {
            assert(is_collected(walk, body, n - 1));
        }
    }
}

/// Extracts the visible text of a page.
#[derive(Clone, Debug)]
pub struct TextExtractor {}

impl TextExtractor {
    /// An extractor.
    pub fn new() -> (r: Self) {
        Self {  }
    }

    /// The visible text of `html`, if it has any.
    pub fn extract_text(&self, html: &Document) -> (r: Option<String>)
        ensures
            crate::url::owned_text_of(r) == body_text(html@),
    {
        match extract_text_from_body(html) {
            Some(text) => if text.as_str().is_empty() {
                None
            } else {
                Some(text)
            },
            None => None,
        }
    }
}

/// Whether the innermost open node is a `script` or a `style` element.
fn parent_is_skipped(html: &Document, open: &Vec<usize>, Ghost(i): Ghost<int>) -> (r: bool)
    requires
        0 <= i <= html@.len(),
        open@.len() == open_nodes(html@, i).len(),
        forall|k: int| 0 <= k < open@.len() ==> open@[k] as int == open_nodes(html@, i)[k],
    ensures
        r == has_skipped_parent(html@, i),
{
    proof {
        lemma_open_nodes(html@, i);
    }
    if open.len() > 0 {
        let p = open[open.len() - 1];
        html.enters(p, "script") || html.enters(p, "style")
    } else {
        false
    }
}

/// The collected texts of the first `body` of `html`, joined by single spaces;
/// `None` where the document has no `body`.
pub fn extract_text_from_body(html: &Document) -> (r: Option<String>)
    ensures
        match first_element(html@, "body"@, html@.len() as int) {
            Some(body) => r is Some && r->0@ == joined(
                collected_texts(html@, body, html@.len() as int),
                seq![' '],
            ),
            None => r is None,
        },
{
    let ghost walk = html@;
    let mut open: Vec<usize> = Vec::new();
    let mut body: Option<usize> = None;
    let mut level: usize = 0;
    let mut inside = false;
    let mut parts: Vec<String> = Vec::new();
    let mut i: usize = 0;
    assert(views_of(parts@) =~= Seq::<Seq<char>>::empty());
    while i < html.edges.len()
        invariant
            walk == html@,
            i <= html.edges.len(),
            html.edges.len() == walk.len(),
            open@.len() == open_nodes(walk, i as int).len(),
            open@.len() <= i,
            forall|k: int| 0 <= k < open@.len() ==> open@[k] as int == open_nodes(walk, i as int)[k],
            match body {
                Some(b) => first_element(walk, "body"@, i as int) == Some(b as int) && b < i,
                None => first_element(walk, "body"@, i as int) is None,
            },
            inside <==> body is Some && is_below(walk, body->0 as int, i as int),
            inside ==> 1 <= level <= open@.len() && open@[level - 1] == body->0,
            views_of(parts@) == match body {
                Some(b) => collected_texts(walk, b as int, i as int),
                None => Seq::<Seq<char>>::empty(),
            },
        decreases html.edges.len() - i,
    {
        let ghost before = open_nodes(walk, i as int);
        let ghost now = open_nodes(walk, i as int + 1);
        let ghost texts = views_of(parts@);
        proof {
            lemma_open_nodes(walk, i as int);
            lemma_open_nodes(walk, i as int + 1);
        }
        assert(walk[i as int] == html.edges@[i as int]@);
        match &html.edges[i] {
            HtmlEdge::Open(node) => {
                match node {
                    HtmlNode::Text(text) => {
                        if inside && !parent_is_skipped(html, &open, Ghost(i as int)) {
                            parts.push(String::from_str(trim(text.as_str())));
                            assert(views_of(parts@) =~= texts.push(trimmed(text@)));
                            assert(is_collected(walk, body->0 as int, i as int));
                        }
                    },
                    _ => {},
                }
                if body.is_none() && html.enters(i, "body") {
                    proof {
                        lemma_nothing_collected_before(walk, i as int, i as int + 1);
                    }
                    body = Some(i);
                    inside = true;
                    level = open.len() + 1;
                }
                open.push(i);
                proof {
                    assert(now =~= before.push(i as int));
                    let b = body->0 as int;
                    if body is Some {
                        if before.contains(b) {
                            let k = choose|k: int| 0 <= k < before.len() && before[k] == b;
                            assert(now[k] == b);
                        }
                        if now.contains(b) && b != i {
                            let k = choose|k: int| 0 <= k < now.len() && now[k] == b;
                            assert(before[k] == b);
                        }
                        if b == i {
                            assert(now[now.len() - 1] == b);
                        }
                    }
                }
            },
            HtmlEdge::Close => {
                if open.len() > 0 {
                    open.pop();
                    if inside && open.len() < level {
                        inside = false;
                    }
                    proof {
                        assert(now =~= before.drop_last());
                        let b = body->0 as int;
                        if body is Some {
                            if now.contains(b) {
                                let k = choose|k: int| 0 <= k < now.len() && now[k] == b;
                                assert(before[k] == b);
                            }
                            if before.contains(b) {
                                let k = choose|k: int| 0 <= k < before.len() && before[k] == b;
                                if k < now.len() {
                                    assert(now[k] == b);
                                }
                            }
                        }
                    }
                }
            },
        }
        i = i + 1;
    }
    proof {
        reveal_strlit(" ");
        assert(" "@ =~= seq![' ']);
    }
    match body {
        Some(_) => Some(join(&parts, " ")),
        None => None,
    }
}

} // verus!
