use saba_core::http::HttpClient;
use saba_core::layout::ComputeStyle;
use saba_core::layout::LayoutObject;
use saba_core::layout::LayoutObjectKind;
use saba_core::layout::LayoutPoint;
use saba_core::layout::LayoutSize;
use saba_core::dom::node::NodeKind;

#[test]
fn test_build_request() {
    let client = HttpClient::new();
    let request = client.build_request("example.com", "index.html");
    assert_eq!(
        "GET /index.html HTTP/1.1\nHost: example.com\nAccept: text/html\nConnection: close\n\n"
            .to_string(),
        request
    );
}

#[test]
fn test_layout_object() {
    let mut obj = LayoutObject::new(NodeKind::Text("x".to_string()), Some(3));
    assert_eq!(LayoutObjectKind::Block, obj.kind());
    assert_eq!(&NodeKind::Text("x".to_string()), obj.node_kind());
    assert_eq!(Some(3), obj.parent());
    assert_eq!(None, obj.first_child());
    assert_eq!(None, obj.next_sibling());
    assert_eq!(ComputeStyle::new(), obj.style());
    assert_eq!(LayoutPoint::new(0, 0), obj.point());
    assert_eq!(LayoutSize::new(0, 0), obj.size());

    obj.set_first_child(Some(7));
    obj.set_next_sibling(Some(9));
    assert_eq!(Some(7), obj.first_child());
    assert_eq!(Some(9), obj.next_sibling());
}
