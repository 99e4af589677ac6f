use murkdown::ast::{Node, NodeBuilder, Rule};
use murkdown::types::Pointer;

#[test]
fn test_build_section_path_with_headers() {
    let node = NodeBuilder::new(Rule::Section)
        .headers(Some(vec![String::from("BAR")]))
        .done();
    assert_eq!(node.build_path("[FOO]"), "[FOO] [SEC BAR]");
}

#[test]
fn test_build_section_path_without_headers() {
    let node = NodeBuilder::new(Rule::Section).done();
    assert_eq!(node.build_path("[FOO]"), "[FOO] [SEC]");
}

#[test]
fn build_path_of_each_kind() {
    let root = NodeBuilder::root()
        .headers(Some(vec!["A".to_string(), "B".to_string()]))
        .done();
    assert_eq!(root.build_path(""), "[A B]");
    assert_eq!(NodeBuilder::block(">").done().build_path("[]"), "[] []");
    let date = NodeBuilder::block(">")
        .headers(Some(vec!["DATE".to_string()]))
        .done();
    assert_eq!(date.build_path("[] [SEC]"), "[] [SEC] [DATE]");
    assert_eq!(Node::new_line("x").build_path("[SEC]"), "[SEC] LINE");
    assert_eq!(Node::ellipsis().build_path("[SEC]"), "[SEC] ?");
    assert_eq!(Node::paragraph(&["a"]).build_path("[SEC]"), "[SEC] [PAR]");
    assert_eq!(Node::new_line("x").build_path(""), "LINE");
}

#[test]
fn paragraph_joins_lines_by_a_space() {
    let p = Node::paragraph(&["foo", "bar", "baz"]);
    assert_eq!(p.rule, Rule::Paragraph);
    assert_eq!(p.value, Some("foo bar baz".to_string()));
    assert_eq!(
        p.children,
        Some(vec![
            Node::new_line("foo"),
            Node::new_line("bar"),
            Node::new_line("baz")
        ])
    );
}

#[test]
fn props_are_found_in_order_and_removed_one_by_one() {
    let mut node = Node::new_line("x");
    assert_eq!(node.find_prop("k"), None);
    node.add_prop("k", "1".to_string());
    node.add_prop("other", "o".to_string());
    node.add_prop("k", "2".to_string());
    assert_eq!(node.find_prop("k"), Some("1".to_string()));
    node.remove_prop("k");
    assert_eq!(node.find_prop("k"), Some("2".to_string()));
    assert_eq!(
        node.props,
        Some(vec![
            ("other".to_string(), "o".to_string()),
            ("k".to_string(), "2".to_string())
        ])
    );
    node.remove_prop("missing");
    assert_eq!(node.props.as_ref().unwrap().len(), 2);
}

#[test]
fn builder_steps() {
    let node = NodeBuilder::root()
        .add_section(vec![Node::new_line("a")])
        .add_child(Node::ellipsis())
        .add_prop(("id".into(), "x".into()))
        .add_error("oops")
        .done();
    assert_eq!(node.rule, Rule::Root);
    let children = node.children.as_ref().unwrap();
    assert_eq!(children.len(), 2);
    assert_eq!(children[0].rule, Rule::Section);
    assert_eq!(children[0].children, Some(vec![Node::new_line("a")]));
    assert_eq!(children[1], Node::ellipsis());
    assert_eq!(node.errors, Some(vec!["oops".to_string()]));
    let with_props = NodeBuilder::root()
        .try_props::<()>(Ok(Some(vec![("a".to_string(), "b".to_string())])))
        .done();
    assert_eq!(with_props.find_prop("a"), Some("b".to_string()));
    let untouched = NodeBuilder::root().try_props::<()>(Ok(None)).done();
    assert_eq!(untouched.props, None);
    let failed = NodeBuilder::root().try_props(Err(())).done();
    assert_eq!(failed.errors, Some(vec!["invalid props".to_string()]));
    assert_eq!(node.clone(), node);
}

#[test]
fn pointers_compare_equal() {
    let mut a = Node::ellipsis();
    let mut b = Node::ellipsis();
    a.pointer = Some(Pointer(1));
    b.pointer = Some(Pointer(7));
    assert_eq!(a, b);
    b.pointer = None;
    assert_ne!(a, b);
}
