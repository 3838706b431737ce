use xml_tree::error::Error;
use xml_tree::event::XmlEvent;
use xml_tree::node::Node;

fn start(name: &str) -> XmlEvent {
    XmlEvent::Start { name: name.to_owned(), attributes: Vec::new() }
}

fn end(name: &str) -> XmlEvent {
    XmlEvent::End { name: name.to_owned() }
}

fn text(t: &str) -> XmlEvent {
    XmlEvent::Text { text: t.to_owned() }
}

#[test]
fn balanced_nesting() {
    let events = vec![start("a"), start("b"), end("b"), end("a")];
    let node = Node::from_events(&events).unwrap();
    assert_eq!(node.name(), "a");
    assert_eq!(node.content(), "");
    assert_eq!(node.child_count(), 1);
    let child = &node.childs()[0];
    assert_eq!(child.name(), "b");
    assert_eq!(child.content(), "");
    assert!(!child.has_childs());
}

#[test]
fn self_closing_root() {
    let events = vec![XmlEvent::Empty {
        name: "a".to_owned(),
        attributes: vec![("k".to_owned(), "v".to_owned())],
    }];
    let node = Node::from_events(&events).unwrap();
    assert_eq!(node.name(), "a");
    assert_eq!(node.attribute("k").unwrap(), "v");
    assert!(!node.has_childs());
    assert_eq!(node.content(), "");
}

#[test]
fn text_concatenation() {
    let events = vec![start("a"), text(" hello "), text("world "), end("a")];
    let node = Node::from_events(&events).unwrap();
    assert_eq!(node.content(), "helloworld");
}

#[test]
fn truncation_is_an_error() {
    let events = vec![start("a"), start("b"), end("b"), XmlEvent::Eof];
    let err = Node::from_events(&events).unwrap_err();
    assert!(matches!(err, Error::Eof));
}

#[test]
fn exhausted_events_are_an_error() {
    let events = vec![start("a")];
    let err = Node::from_events(&events).unwrap_err();
    assert!(matches!(err, Error::Eof));
}

#[test]
fn empty_event_sequence_is_an_error() {
    let events: Vec<XmlEvent> = Vec::new();
    let err = Node::from_events(&events).unwrap_err();
    assert!(matches!(err, Error::Eof));
}

#[test]
fn stray_end_tag_is_tolerated() {
    let events = vec![end("x"), start("a"), end("a")];
    let node = Node::from_events(&events).unwrap();
    assert_eq!(node.name(), "a");
}

#[test]
fn text_outside_nodes_is_discarded() {
    let events = vec![text("noise"), start("a"), end("a")];
    let node = Node::from_events(&events).unwrap();
    assert_eq!(node.name(), "a");
    assert_eq!(node.content(), "");
}

#[test]
fn other_events_are_ignored() {
    let events = vec![XmlEvent::Other, start("a"), XmlEvent::Other, end("a")];
    let node = Node::from_events(&events).unwrap();
    assert_eq!(node.name(), "a");
    assert!(!node.has_childs());
}

#[test]
fn duplicate_attribute_keys_last_wins() {
    let events = vec![XmlEvent::Empty {
        name: "a".to_owned(),
        attributes: vec![
            ("k".to_owned(), "1".to_owned()),
            ("other".to_owned(), "x".to_owned()),
            ("k".to_owned(), "2".to_owned()),
        ],
    }];
    let node = Node::from_events(&events).unwrap();
    assert_eq!(node.attribute("k").unwrap(), "2");
    assert_eq!(node.attribute("other").unwrap(), "x");
}

#[test]
fn mixed_content_document() {
    let events = vec![
        start("root"),
        text("  intro  "),
        XmlEvent::Empty { name: "leaf".to_owned(), attributes: Vec::new() },
        start("inner"),
        text("deep"),
        end("inner"),
        end("root"),
    ];
    let node = Node::from_events(&events).unwrap();
    assert_eq!(node.name(), "root");
    assert_eq!(node.content(), "intro");
    assert_eq!(node.child_count(), 2);
    assert_eq!(node.childs()[0].name(), "leaf");
    assert_eq!(node.childs()[1].name(), "inner");
    assert_eq!(node.childs()[1].content(), "deep");
}

#[test]
fn to_events_of_leaf_is_one_empty_tag() {
    let node = Node::builder("a").attribute("k", "v").build();
    let events = node.to_events();
    assert_eq!(events.len(), 1);
    assert_eq!(
        events[0],
        XmlEvent::Empty {
            name: "a".to_owned(),
            attributes: vec![("k".to_owned(), "v".to_owned())],
        }
    );
}

#[test]
fn to_events_of_nested_tree() {
    let node = Node::builder("a")
        .content("body")
        .child(Node::builder("b").build())
        .build();
    let events = node.to_events();
    assert_eq!(
        events,
        vec![
            XmlEvent::Start { name: "a".to_owned(), attributes: Vec::new() },
            XmlEvent::Text { text: "body".to_owned() },
            XmlEvent::Empty { name: "b".to_owned(), attributes: Vec::new() },
            XmlEvent::End { name: "a".to_owned() },
        ]
    );
}
