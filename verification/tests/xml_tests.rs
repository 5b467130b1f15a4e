use nh_validation::xml::{TextPos, XmlDocument};

#[test]
fn parse_lists_nodes_in_document_order() {
    let doc = XmlDocument::parse("<a>\n  <b>hi</b>\n</a>").unwrap();
    // root, a, text, b, text, text
    assert_eq!(doc.nodes.len(), 6);
    assert_eq!(doc.nodes[0].parent, None);
    assert_eq!(doc.nodes[1].name, "a");
    assert_eq!(doc.nodes[1].parent, Some(0));
    assert_eq!(doc.nodes[3].name, "b");
    assert_eq!(doc.nodes[3].parent, Some(1));
    assert!(doc.nodes[3].element);
    assert_eq!(doc.nodes[3].text.as_deref(), Some("hi"));
    assert_eq!(doc.nodes[3].start, TextPos { row: 2, col: 3 });
    assert_eq!(doc.nodes[3].end, TextPos { row: 2, col: 12 });
    assert!(!doc.nodes[4].element);
    assert_eq!(doc.nodes[4].parent, Some(3));
}

#[test]
fn parse_refuses_what_is_not_xml() {
    let err = XmlDocument::parse("<a><b></a>").unwrap_err();
    assert!(!err.message.is_empty());
}
