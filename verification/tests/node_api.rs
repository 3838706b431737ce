use xml_tree::error::{Error, ParseNodeError};
use xml_tree::node::Node;

#[test]
fn builder_sets_name_and_content() {
    let node = Node::builder("first").name("renamed").content("payload").build();
    assert_eq!(node.name(), "renamed");
    assert_eq!(node.content(), "payload");
    assert!(!node.has_childs());
    assert_eq!(node.child_count(), 0);
}

#[test]
fn builder_attribute_overwrites_duplicate_key() {
    let node = Node::builder("a").attribute("k", "1").attribute("k", "2").build();
    assert_eq!(node.attribute("k").unwrap(), "2");
    assert!(node.has_attribute("k"));
}

#[test]
fn builder_attributes_extends_mapping() {
    let node = Node::builder("a")
        .attribute("k", "0")
        .attributes(vec![
            ("k".to_owned(), "1".to_owned()),
            ("m".to_owned(), "2".to_owned()),
        ])
        .build();
    assert_eq!(node.attribute("k").unwrap(), "1");
    assert_eq!(node.attribute("m").unwrap(), "2");
}

#[test]
fn builder_childs_and_child() {
    let node = Node::builder("a")
        .childs(vec![Node::builder("b").build(), Node::builder("c").build()])
        .child(Node::builder("d").build())
        .build();
    assert_eq!(node.child_count(), 3);
    assert_eq!(node.childs()[0].name(), "b");
    assert_eq!(node.childs()[1].name(), "c");
    assert_eq!(node.childs()[2].name(), "d");
}

#[test]
fn builder_option_child() {
    let with = Node::builder("a").option_child(Some(Node::builder("b").build())).build();
    assert_eq!(with.child_count(), 1);
    let without = Node::builder("a").option_child(None::<Node>).build();
    assert_eq!(without.child_count(), 0);
}

#[test]
fn builder_try_child_ok() {
    let node = Node::builder("a").try_child(Ok(Node::builder("b").build())).unwrap().build();
    assert_eq!(node.child_count(), 1);
    assert_eq!(node.childs()[0].name(), "b");
}

#[test]
fn builder_try_child_err() {
    let r = Node::builder("a").try_child(Err(Error::Eof));
    assert!(matches!(r, Err(Error::Eof)));
}

#[test]
fn missing_attribute_error_names_key_and_node() {
    let node = Node::builder("host").attribute("present", "1").build();
    let err = node.attribute("x").unwrap_err();
    match err {
        Error::ParseNodeError(ParseNodeError::MissingAttribute(key, owner)) => {
            assert_eq!(key, "x");
            assert_eq!(owner, "host");
        }
        other => panic!("unexpected error: {:?}", other),
    }
    assert!(!node.has_attribute("x"));
}

#[test]
fn missing_child_error_names_child_and_node() {
    let node = Node::builder("parent").child(Node::builder("a").build()).build();
    let err = node.child_by_name("y").unwrap_err();
    match err {
        Error::ParseNodeError(ParseNodeError::MissingChild(child, owner)) => {
            assert_eq!(child, "y");
            assert_eq!(owner, "parent");
        }
        other => panic!("unexpected error: {:?}", other),
    }
}

#[test]
fn childs_by_name_of_absent_name_is_empty_and_restartable() {
    let node = Node::builder("parent").child(Node::builder("a").build()).build();
    assert!(node.childs_by_name("y").is_empty());
    // A second query yields the same, the tree is untouched.
    assert!(node.childs_by_name("y").is_empty());
    assert_eq!(node.child_count(), 1);
}

#[test]
fn child_by_name_finds_first_match() {
    let node = Node::builder("parent")
        .child(Node::builder("x").content("one").build())
        .child(Node::builder("y").build())
        .child(Node::builder("x").content("two").build())
        .build();
    let found = node.child_by_name("x").unwrap();
    assert_eq!(found.content(), "one");
}

#[test]
fn childs_by_name_filters_in_order() {
    let node = Node::builder("parent")
        .child(Node::builder("x").content("one").build())
        .child(Node::builder("y").build())
        .child(Node::builder("x").content("two").build())
        .build();
    let found = node.childs_by_name("x");
    assert_eq!(found.len(), 2);
    assert_eq!(found[0].content(), "one");
    assert_eq!(found[1].content(), "two");
}

#[test]
fn clone_is_structural() {
    let node = Node::builder("a")
        .attribute("k", "v")
        .content("c")
        .child(Node::builder("b").content("inner").build())
        .build();
    let copy = node.clone();
    assert_eq!(copy, node);
    assert_eq!(copy.childs()[0].content(), "inner");
}
