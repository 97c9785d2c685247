use wexplorer_indexing::html::{Document, HtmlEdge, HtmlNode};
use wexplorer_indexing::text_extracting::{
    extract_text_from_body, get_skip_elements, TextExtractor,
};

#[test]
fn should_extract_text_from_body() {
    // Arrange

    let html = Document::parse_document(
        "<html><body>Test<div>text<span>example</span></div>text</body></html>",
    );
    let target = TextExtractor::new();

    // Act

    let result = target.extract_text(&html).unwrap();

    // Assert

    assert_eq!("Test text example text", result);
}

#[test]
fn should_not_extract_text_from_skip_elements() {
    // Arrange

    let html = Document::parse_document(
        "<html><body>Test<SCRIPT>script</SCRIPT><Style>style</Style></body></html>",
    );
    let target = TextExtractor::new();

    // Act

    let result = target.extract_text(&html).unwrap();

    // Assert

    assert_eq!("Test", result);
}

#[test]
fn skip_elements_are_script_and_style() {
    assert_eq!(vec!["script", "style"], get_skip_elements());
}

#[test]
fn parsing_yields_the_walk_of_the_tree() {
    let html = Document::parse_document("<html><head></head><body><p>Hi</p></body></html>");
    let names: Vec<String> = html
        .edges
        .iter()
        .map(|edge| match edge {
            HtmlEdge::Open(HtmlNode::Element(name, _)) => format!("<{}>", name),
            HtmlEdge::Open(HtmlNode::Text(text)) => format!("'{}'", text),
            HtmlEdge::Open(HtmlNode::Other) => "<>".to_string(),
            HtmlEdge::Close => "/".to_string(),
        })
        .collect();
    assert_eq!(
        vec!["<>", "<html>", "<head>", "/", "<body>", "<p>", "'Hi'", "/", "/", "/", "/", "/"],
        names
    );
}

#[test]
fn text_is_trimmed_and_joined_by_single_spaces() {
    let html = Document::parse_document(
        "<html><body>  one \n<p>\ttwo\u{a0}</p><b> three</b></body></html>",
    );
    assert_eq!(Some("one two three".to_string()), TextExtractor::new().extract_text(&html));
}

#[test]
fn a_text_of_white_space_only_still_takes_its_place() {
    let html = Document::parse_document("<html><body>a<p> </p>b</body></html>");
    assert_eq!(Some("a  b".to_string()), TextExtractor::new().extract_text(&html));
}

#[test]
fn text_outside_the_body_is_not_extracted() {
    let html = Document::parse_document(
        "<html><head><title>Title</title></head><body>Body</body></html>",
    );
    assert_eq!(Some("Body".to_string()), TextExtractor::new().extract_text(&html));
}

#[test]
fn text_below_a_skipped_element_but_not_directly_in_it_is_extracted() {
    let document = Document::new(vec![
        HtmlEdge::Open(HtmlNode::Element("body".to_string(), None)),
        HtmlEdge::Open(HtmlNode::Element("STYLE".to_string(), None)),
        HtmlEdge::Open(HtmlNode::Text("hidden".to_string())),
        HtmlEdge::Close,
        HtmlEdge::Open(HtmlNode::Element("span".to_string(), None)),
        HtmlEdge::Open(HtmlNode::Text("shown".to_string())),
        HtmlEdge::Close,
        HtmlEdge::Close,
        HtmlEdge::Close,
        HtmlEdge::Open(HtmlNode::Text("after".to_string())),
        HtmlEdge::Close,
        HtmlEdge::Close,
        HtmlEdge::Open(HtmlNode::Text("outside".to_string())),
        HtmlEdge::Close,
    ]);
    assert_eq!(Some("shown after".to_string()), TextExtractor::new().extract_text(&document));
}

#[test]
fn a_document_without_body_has_no_text() {
    let document = Document::new(vec![
        HtmlEdge::Open(HtmlNode::Element("div".to_string(), None)),
        HtmlEdge::Open(HtmlNode::Text("text".to_string())),
        HtmlEdge::Close,
        HtmlEdge::Close,
    ]);
    assert_eq!(None, extract_text_from_body(&document));
    assert_eq!(None, TextExtractor::new().extract_text(&document));
}

#[test]
fn an_empty_body_has_no_text() {
    let html = Document::parse_document("<html><body><script>var x = 1;</script></body></html>");
    assert_eq!(Some(String::new()), extract_text_from_body(&html));
    assert_eq!(None, TextExtractor::new().extract_text(&html));
}

#[test]
fn only_the_first_body_counts() {
    let document = Document::new(vec![
        HtmlEdge::Open(HtmlNode::Element("BODY".to_string(), None)),
        HtmlEdge::Open(HtmlNode::Text("first".to_string())),
        HtmlEdge::Close,
        HtmlEdge::Close,
        HtmlEdge::Open(HtmlNode::Element("body".to_string(), None)),
        HtmlEdge::Open(HtmlNode::Text("second".to_string())),
        HtmlEdge::Close,
        HtmlEdge::Close,
    ]);
    assert_eq!(Some("first".to_string()), TextExtractor::new().extract_text(&document));
}

#[test]
fn hrefs_are_read_in_the_order_of_the_document() {
    let html = Document::parse_document(
        "<html><head><base href=\"/root/\"></head><body><a href=\"one\">1</a><a>none</a>\
         <p><A HREF=\"two\">2</A></p><link href=\"style.css\"></body></html>",
    );
    assert_eq!(vec!["one".to_string(), "two".to_string()], html.hrefs("a"));
    assert_eq!(Some(Some("/root/".to_string())), html.first_href("base"));
    assert_eq!(None, html.first_href("form"));
    assert_eq!(Some(None), html.first_href("p"));
}
