use saba_core::dom::api::get_target_element_node;
use saba_core::dom::node::Element;
use saba_core::dom::node::ElementKind;
use saba_core::dom::node::NodeKind;
use saba_core::html::parser::HtmlParser;
use saba_core::html::token::HtmlTokenizer;

#[test]
fn parser_test_empty() {
    let html = "".to_string();
    let t = HtmlTokenizer::new(html);
    let window = HtmlParser::new(t).construct_tree();

    let document = window.document();
    assert_eq!(NodeKind::Document, window.node(document).expect("no document node").kind);
    assert!(window.first_child(document).is_none());
    assert_eq!(1, window.len());
}

#[test]
fn test_body() {
    let html = "<html><head></head><body></body></html>".to_string();
    let t = HtmlTokenizer::new(html);
    let window = HtmlParser::new(t).construct_tree();

    let document = window.document();
    assert_eq!(NodeKind::Document, window.node(document).expect("no document node").kind);

    let html_node = window.first_child(document).expect("failed to get a first child of document");
    assert_eq!(
        NodeKind::Element(Element::new("html", Vec::new())),
        window.node(html_node).expect("missing html node").kind
    );

    let head = window.first_child(html_node).expect("failed to get a first child of html");
    assert_eq!(
        NodeKind::Element(Element::new("head", Vec::new())),
        window.node(head).expect("missing head node").kind
    );

    let body = window.next_sibling(head).expect("failed to get a next sibling of head");
    assert_eq!(
        NodeKind::Element(Element::new("body", Vec::new())),
        window.node(body).expect("missing body node").kind
    );

    // the document has exactly one child at the root
    assert!(window.next_sibling(html_node).is_none());
}

// Missing html, head and body elements are supplied.
#[test]
fn test_auto_inserted_elements() {
    let html = "<p></p>".to_string();
    let t = HtmlTokenizer::new(html);
    let window = HtmlParser::new(t).construct_tree();

    let document = window.document();
    let html_node = window.first_child(document).expect("no html element");
    assert_eq!(Some(ElementKind::Html), window.element_kind(html_node));
    let head = window.first_child(html_node).expect("no head element");
    assert_eq!(Some(ElementKind::Head), window.element_kind(head));
    let body = window.next_sibling(head).expect("no body element");
    assert_eq!(Some(ElementKind::Body), window.element_kind(body));
    let p = window.first_child(body).expect("no p element");
    assert_eq!(Some(ElementKind::P), window.element_kind(p));
}

// Text runs merge into one text node; boundary whitespace at a fresh
// insertion point is dropped.
#[test]
fn test_text_node() {
    let html = "<html><head></head><body>text</body></html>".to_string();
    let t = HtmlTokenizer::new(html);
    let window = HtmlParser::new(t).construct_tree();

    let document = window.document();
    let html_node = window.first_child(document).expect("no html element");
    let head = window.first_child(html_node).expect("no head element");
    let body = window.next_sibling(head).expect("no body element");
    let text = window.first_child(body).expect("no text node");
    assert_eq!(
        NodeKind::Text("text".to_string()),
        window.node(text).expect("missing text node").kind
    );
}

// The preorder search finds elements children-first.
#[test]
fn test_get_target_element_node() {
    let html = "<html><head></head><body><p><a></a></p></body></html>".to_string();
    let t = HtmlTokenizer::new(html);
    let window = HtmlParser::new(t).construct_tree();

    let document = window.document();
    let a = get_target_element_node(&window, Some(document), ElementKind::A)
        .expect("no anchor element found");
    assert_eq!(Some(ElementKind::A), window.element_kind(a));

    let body = get_target_element_node(&window, Some(document), ElementKind::Body)
        .expect("no body element found");
    let p = window.first_child(body).expect("no p element");
    assert_eq!(Some(window.first_child(p).expect("no a element")), Some(a));

    assert!(get_target_element_node(&window, Some(document), ElementKind::H1).is_none());
}

// Style element content becomes a text node under the style element.
#[test]
fn test_style_content() {
    let html = "<html><head><style>p{color:red}</style></head><body></body></html>".to_string();
    let t = HtmlTokenizer::new(html);
    let window = HtmlParser::new(t).construct_tree();

    let document = window.document();
    let style = get_target_element_node(&window, Some(document), ElementKind::Style)
        .expect("no style element found");
    let text = window.first_child(style).expect("style has no content");
    assert_eq!(
        NodeKind::Text("p{color:red}".to_string()),
        window.node(text).expect("missing text node").kind
    );
}
