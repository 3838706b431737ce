use std::str::FromStr;

use xml_tree::node::Node;

fn sample_tree() -> Node {
    Node::builder("library")
        .attribute("kind", "public")
        .child(
            Node::builder("book")
                .attribute("year", "1932")
                .content("Brave New World")
                .build(),
        )
        .child(
            Node::builder("shelf")
                .child(Node::builder("label").content("fiction").build())
                .build(),
        )
        .build()
}

#[test]
fn event_round_trip_rebuilds_the_tree() {
    let tree = sample_tree();
    let events = tree.to_events();
    let rebuilt = Node::from_events(&events).unwrap();
    assert_eq!(rebuilt, tree);
}

#[test]
fn textual_round_trip_rebuilds_the_tree() {
    let tree = sample_tree();
    let text = tree.to_text().unwrap();
    let rebuilt = Node::from_str(&text).unwrap();
    assert_eq!(rebuilt, tree);
}

#[test]
fn to_text_renders_expected_document() {
    let tree = Node::builder("a")
        .attribute("k", "v")
        .child(Node::builder("b").content("t").build())
        .build();
    assert_eq!(tree.to_text().unwrap(), "<a k=\"v\"><b>t</b></a>");
}

#[test]
fn to_text_renders_leaf_as_self_closing() {
    let tree = Node::builder("only").attribute("k", "v").build();
    assert_eq!(tree.to_text().unwrap(), "<only k=\"v\"/>");
}

#[test]
fn from_str_parses_document() {
    let node = Node::from_str("<root a=\"1\"> hi <leaf/><x>deep</x></root>").unwrap();
    assert_eq!(node.name(), "root");
    assert_eq!(node.attribute("a").unwrap(), "1");
    assert_eq!(node.content(), "hi");
    assert_eq!(node.child_count(), 2);
    assert_eq!(node.childs()[0].name(), "leaf");
    assert_eq!(node.childs()[1].content(), "deep");
}

#[test]
fn from_str_of_truncated_document_is_an_error() {
    let err = Node::from_str("<root><open>").unwrap_err();
    assert!(matches!(err, xml_tree::error::Error::Eof));
}

#[test]
fn read_from_parses_via_reader() {
    let mut reader = quick_xml::Reader::from_str("<a><b/></a>");
    let node = Node::read_from(&mut reader).unwrap();
    assert_eq!(node.name(), "a");
    assert_eq!(node.child_count(), 1);
}

#[test]
fn write_to_emits_expected_bytes() {
    let tree = Node::builder("a").child(Node::builder("b").build()).build();
    let mut writer = quick_xml::Writer::new(Vec::new());
    tree.write_to(&mut writer).unwrap();
    let bytes = writer.into_inner();
    assert_eq!(String::from_utf8(bytes).unwrap(), "<a><b/></a>");
}

#[test]
fn round_trip_trims_surrounding_whitespace_in_content() {
    // Content that is not invariant under trimming falls outside the
    // round-trip law: its surrounding whitespace is lost.
    let tree = Node::builder("a").content("  padded  ").build();
    let events = tree.to_events();
    let rebuilt = Node::from_events(&events).unwrap();
    assert_eq!(rebuilt.content(), "padded");
}

struct FailingSink;

impl std::io::Write for FailingSink {
    fn write(&mut self, _buf: &[u8]) -> std::io::Result<usize> {
        Err(std::io::Error::new(std::io::ErrorKind::Other, "sink closed"))
    }

    fn flush(&mut self) -> std::io::Result<()> {
        Err(std::io::Error::new(std::io::ErrorKind::Other, "sink closed"))
    }
}

#[test]
fn write_to_surfaces_sink_errors() {
    let tree = Node::builder("a").build();
    let mut writer = quick_xml::Writer::new(FailingSink);
    let err = tree.write_to(&mut writer).unwrap_err();
    assert!(matches!(err, xml_tree::error::Error::IOError(_)));
}

#[test]
fn malformed_attribute_syntax_is_an_error() {
    let err = Node::from_str("<a k=></a>").unwrap_err();
    assert!(matches!(err, xml_tree::error::Error::AttributeXmlError(_)));
}

#[test]
fn malformed_document_is_a_tokenizer_error() {
    let err = Node::from_str("<a></b></a>").unwrap_err();
    assert!(matches!(err, xml_tree::error::Error::XmlError(_)));
}
