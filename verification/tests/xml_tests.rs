use typebook::xml::{Attribute, NodeKind, XmlNode};
use typebook::xml_parse::parse_xml;

#[test]
fn parse_copies_the_tree() {
    let doc = parse_xml("<?xml version=\"1.0\"?><!-- c --><a x=\"1\" xmlns:n=\"urn:n\" n:y=\"2\">t<b/>u<?pi v?></a>")
        .unwrap();
    assert_eq!(doc.kind, NodeKind::Root);
    assert_eq!(doc.id, 0);
    assert_eq!(doc.name, "");
    assert_eq!(doc.text, None);
    assert_eq!(doc.children.len(), 2);
    let comment = &doc.children[0];
    assert_eq!(comment.kind, NodeKind::Comment);
    assert_eq!(comment.text.as_deref(), Some(" c "));
    assert_eq!(comment.id, 1);
    let a = &doc.children[1];
    assert_eq!(a.kind, NodeKind::Element);
    assert_eq!(a.name, "a");
    assert_eq!(a.id, 2);
    assert_eq!(a.text.as_deref(), Some("t"));
    assert_eq!(a.attributes.len(), 2);
    assert_eq!(a.attributes[0].name, "x");
    assert_eq!(a.attributes[0].namespace, None);
    assert_eq!(a.attributes[0].value, "1");
    assert_eq!(a.attributes[1].name, "y");
    assert_eq!(a.attributes[1].namespace.as_deref(), Some("urn:n"));
    assert_eq!(a.attributes[1].value, "2");
    let kinds: Vec<NodeKind> = a.children.iter().map(|c| c.kind).collect();
    assert_eq!(kinds, vec![NodeKind::Text, NodeKind::Element, NodeKind::Text, NodeKind::Instruction]);
    let ids: Vec<usize> = a.children.iter().map(|c| c.id).collect();
    assert_eq!(ids, vec![3, 4, 5, 6]);
    assert_eq!(a.children[1].name, "b");
    assert_eq!(a.children[1].text, None);
    assert_eq!(a.children[2].text.as_deref(), Some("u"));
    assert_eq!(a.children[3].text, None);
}

#[test]
fn parse_reports_an_unknown_entity_by_name() {
    let e = parse_xml("<p>a&nbsp;b</p>").unwrap_err();
    assert_eq!(e.entity.as_deref(), Some("nbsp"));
    assert!(e.message.contains("nbsp"));
}

#[test]
fn parse_reports_other_faults_without_an_entity() {
    let e = parse_xml("<p>").unwrap_err();
    assert_eq!(e.entity, None);
    assert!(!e.message.is_empty());
    assert!(parse_xml("").is_err());
}

#[test]
fn attribute_lookup_goes_by_local_name() {
    let doc = parse_xml("<a xmlns:n=\"urn:n\" n:k=\"1\" k=\"2\" j=\"3\"/>").unwrap();
    let a = &doc.children[0];
    assert_eq!(a.attribute("k"), Some("1"));
    assert_eq!(a.attribute("j"), Some("3"));
    assert_eq!(a.attribute("z"), None);
    assert_eq!(a.attribute_ns("urn:n", "k"), Some("1"));
    assert_eq!(a.attribute_ns("urn:n", "j"), None);
    assert_eq!(a.attribute_ns("urn:m", "k"), None);
}

#[test]
fn element_children_are_counted_without_other_nodes() {
    let doc = parse_xml("<a> <b/>x<!-- c --><c/> </a>").unwrap();
    let a = &doc.children[0];
    assert_eq!(a.nth_element_child(0).unwrap().name, "b");
    assert_eq!(a.nth_element_child(1).unwrap().name, "c");
    assert!(a.nth_element_child(2).is_none());
    assert!(a.has_tag_name("a"));
    assert!(!a.has_tag_name("b"));
    assert!(!a.children[0].has_tag_name(""));
    assert!(a.is_element());
    assert!(a.children[0].is_text());
}

#[test]
fn built_elements_take_the_text_of_a_first_text_child() {
    let with = XmlNode::new_element(0, "p", vec![Attribute::new("id", "x")], vec![XmlNode::new_text(1, "hi")]);
    assert_eq!(with.text(), Some("hi"));
    assert_eq!(with.attribute("id"), Some("x"));
    let without = XmlNode::new_element(0, "p", vec![], vec![XmlNode::new_element(1, "b", vec![], vec![])]);
    assert_eq!(without.text(), None);
}
