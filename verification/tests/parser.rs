use murkdown::ast::{Node, NodeBuilder, Rule};
use murkdown::parser::parse;

#[test]
fn test_parse_short_block() {
    let input = "foo\n> [!IMAGE](src=\"foo.png\") bar\nbaz\n";
    let expected = NodeBuilder::root()
        .add_section(vec![
            Node::new_line("foo"),
            NodeBuilder::block(">")
                .add_prop(("src".into(), "foo.png".into()))
                .headers(Some(vec!["IMAGE".into()]))
                .add_section(vec![Node::new_line("bar")])
                .done(),
            Node::new_line("baz"),
        ])
        .done();
    let ast = parse(input).unwrap();

    assert_eq!(ast, expected);
}

#[test]
fn test_parse_long_block() {
    let input = "foo\n> [!IMAGE](src=\"foo.png\")\n> bar\n> baz\nqux\n";
    let expected = NodeBuilder::root()
        .add_section(vec![
            Node::new_line("foo"),
            NodeBuilder::block(">")
                .add_prop(("src".into(), "foo.png".into()))
                .headers(Some(vec!["IMAGE".into()]))
                .add_section(vec![Node::new_line("bar"), Node::new_line("baz")])
                .done(),
            Node::new_line("qux"),
        ])
        .done();
    let ast = parse(input).unwrap();

    assert_eq!(ast, expected);
}

#[test]
fn blocks_nest_and_markers_tell_them_apart() {
    let input = "# Title\n> a\n> > b\n> c\n* item\n    code\n...\n\nend";
    let expected = NodeBuilder::root()
        .add_section(vec![
            NodeBuilder::block("#")
                .add_section(vec![Node::new_line("Title")])
                .done(),
            NodeBuilder::block(">")
                .add_section(vec![
                    Node::new_line("a"),
                    NodeBuilder::block(">")
                        .add_section(vec![Node::new_line("b")])
                        .done(),
                    Node::new_line("c"),
                ])
                .done(),
            NodeBuilder::block("*")
                .add_section(vec![Node::new_line("item")])
                .done(),
            NodeBuilder::block("   ")
                .add_section(vec![Node::new_line("code")])
                .done(),
            Node::ellipsis(),
            Node::new_line(""),
            Node::new_line("end"),
        ])
        .done();
    assert_eq!(parse(input).unwrap(), expected);
}

#[test]
fn openers() {
    let block = |ast: &Node| ast.children.as_ref().unwrap()[0].children.as_ref().unwrap()[0].clone();
    let ast = parse("> [!DATE]").unwrap();
    assert_eq!(
        block(&ast),
        NodeBuilder::block(">")
            .headers(Some(vec!["DATE".to_string()]))
            .done()
    );
    let ast = parse("> [!A  B](id=\"x\" src=\"y z\") rest\n> ...").unwrap();
    assert_eq!(
        block(&ast),
        NodeBuilder::block(">")
            .headers(Some(vec!["A".to_string(), "B".to_string()]))
            .props(vec![("id".into(), "x".into()), ("src".into(), "y z".into())])
            .add_section(vec![Node::new_line("rest"), Node::ellipsis()])
            .done()
    );
    let ast = parse("> [!A](nonsense)").unwrap();
    assert_eq!(
        block(&ast),
        NodeBuilder::block(">")
            .headers(Some(vec!["A".to_string()]))
            .add_error("invalid props")
            .done()
    );
    // what does not end is no opener
    let ast = parse("> [!A").unwrap();
    assert_eq!(
        block(&ast),
        NodeBuilder::block(">")
            .add_section(vec![Node::new_line("[!A")])
            .done()
    );
    let ast = parse(">no space").unwrap();
    assert_eq!(block(&ast), Node::new_line(">no space"));
    assert_eq!(
        parse("").unwrap(),
        NodeBuilder::root().add_section(vec![]).done()
    );
    assert_eq!(parse("x").unwrap().rule, Rule::Root);
}
