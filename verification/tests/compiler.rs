use murkdown::ast::{Node, NodeBuilder};
use murkdown::compiler::compile;
use murkdown::compiler::lang::Lang;
use murkdown::types::{AstMap, LibError, Pointer};

fn markdown() -> Lang {
    Lang::new(
        "RULES FOR markdown PRODUCE text/markdown\n\
         PREPROCESS RULES:\n\
         [...DATE...]$\n\
         \x20 PUSH src \"exec?:date\"\n\
         \x20 EXEC \"date\" TO text/plain AS \"date\"\n\
         COMPILE RULES:\n\
         ^[...]$\n\
         \x20 NOOP\n\
         [SEC...]$\n\
         \x20 NOOP\n\
         [...]$\n\
         \x20 PUSH indent \"\\m \"\n\
         \x20 YIELD\n\
         \x20 POP indent\n\
         LINE$\n\
         \x20 IS UNESCAPED_VALUE\n\
         \x20 WRITEALL indent\n\
         \x20 WRITE \"\\v\\n\"\n",
    )
    .expect("builtin markdown to work")
}

#[test]
fn test_compile() {
    let lang = markdown();
    let mut asts = AstMap::default();
    let mut node = NodeBuilder::root()
        .add_section(vec![NodeBuilder::block(">")
            .add_prop(("src".into(), "bar".into()))
            .add_section(vec![Node::new_line("foo")])
            .done()])
        .done();
    let result = compile(&mut node, &mut asts, &lang).unwrap();

    assert_eq!(&result, "> foo\n");
}

#[test]
fn test_compile_nested() {
    let lang = markdown();
    let mut asts = AstMap::default();
    let mut node = NodeBuilder::root()
        .add_section(vec![NodeBuilder::block(">")
            .add_prop(("src".into(), "bar".into()))
            .add_section(vec![
                Node::new_line("foo"),
                NodeBuilder::block(">")
                    .add_prop(("src".into(), "bar".into()))
                    .add_section(vec![Node::new_line("bar")])
                    .done(),
                Node::new_line("baz"),
            ])
            .done()])
        .done();
    let result = compile(&mut node, &mut asts, &lang).unwrap();
    assert_eq!(result, "> foo\n> > bar\n> baz\n");
}

#[test]
fn test_compile_composable() {
    let lang = Lang::new(
        "RULES FOR test PRODUCE text/plain\n\
         COMPILE RULES:\n\
         [INDENTED] [SEC] LINE$\n\
         \x20 IS COMPOSABLE\n\
         \x20 WRITE \"  \"\n\
         [SEC...] LINE$\n\
         \x20 IS COMPOSABLE\n\
         \x20 WRITE \"\\v\"\n\
         LINE$\n\
         \x20 WRITE \"ish\\n\"\n",
    )
    .unwrap();
    let mut asts = AstMap::default();
    let mut node = NodeBuilder::root()
        .add_section(vec![NodeBuilder::block(">")
            .add_prop(("src".into(), "bar".into()))
            .add_section(vec![
                Node::new_line("foo"),
                NodeBuilder::block(">")
                    .headers(Some(vec!["INDENTED".into()]))
                    .add_section(vec![Node::new_line("bar")])
                    .done(),
                Node::new_line("baz"),
            ])
            .done()])
        .done();
    let result = compile(&mut node, &mut asts, &lang).unwrap();
    assert_eq!(result, "fooish\n  barish\nbazish\n");
}

#[test]
fn test_compile_composable_with_yield() {
    let lang = Lang::new(
        "RULES FOR test PRODUCE text/plain\n\
         COMPILE RULES:\n\
         [...INDENTED...] [SEC]$\n\
         \x20 IS COMPOSABLE\n\
         \x20 PUSH indent \"  \"\n\
         \x20 YIELD\n\
         \x20 POP indent\n\
         [...DRAMATIC...] [SEC]$\n\
         \x20 IS COMPOSABLE\n\
         \x20 PUSH prefix \"Wow! \"\n\
         \x20 PUSH suffix \"!\"\n\
         \x20 YIELD\n\
         \x20 POP prefix\n\
         \x20 POP suffix\n\
         LINE$\n\
         \x20 WRITEALL indent\n\
         \x20 WRITEALL prefix\n\
         \x20 WRITE \"\\v\"\n\
         \x20 WRITEALL suffix\n\
         \x20 WRITE \"\\n\"\n",
    )
    .unwrap();
    let mut asts = AstMap::default();
    let mut node = NodeBuilder::root()
        .add_section(vec![NodeBuilder::block(">")
            .add_prop(("src".into(), "bar".into()))
            .add_section(vec![
                Node::new_line("foo"),
                NodeBuilder::block(">")
                    .headers(Some(vec!["INDENTED DRAMATIC".into()]))
                    .add_section(vec![Node::new_line("bar")])
                    .done(),
                Node::new_line("baz"),
            ])
            .done()])
        .done();
    let result = compile(&mut node, &mut asts, &lang).unwrap();
    assert_eq!(result, "foo\n  Wow! bar!\nbaz\n");
}

#[test]
fn test_compile_escapes_value_by_default() {
    let lang = Lang::new(
        "RULES FOR test PRODUCE text/plain\n\
         COMPILE RULES:\n\
         [SEC...] LINE$\n\
         \x20 WRITE \"\\v\"\n",
    )
    .unwrap();
    let unescaped_lang = Lang::new(
        "RULES FOR test PRODUCE text/plain\n\
         COMPILE RULES:\n\
         [SEC...] LINE$\n\
         \x20 IS UNESCAPED_VALUE\n\
         \x20 WRITE \"\\v\"\n",
    )
    .unwrap();
    let mut asts = AstMap::default();
    let mut node = NodeBuilder::root()
        .add_section(vec![NodeBuilder::block(">")
            .add_prop(("src".into(), "bar".into()))
            .add_section(vec![Node::new_line("<br />")])
            .done()])
        .done();

    let result = compile(&mut node, &mut asts, &unescaped_lang).unwrap();
    assert_eq!(&result, "<br />");

    let result = compile(&mut node, &mut asts, &lang).unwrap();
    assert_eq!(&result, "&lt;br /&gt;");
}

fn skip_wrapper_lang() -> Lang {
    Lang::new(
        "RULES FOR test PRODUCE text/plain\n\
         COMPILE RULES:\n\
         ^[]$\n\
         \x20 NOOP\n\
         ^[] [SEC]$\n\
         \x20 NOOP\n\
         [SEC]$\n\
         \x20 WRITE \"  section start\\n\"\n\
         \x20 YIELD\n\
         \x20 WRITE \"  section end\\n\"\n\
         [...]$\n\
         \x20 WRITE \"block start\\n\"\n\
         \x20 YIELD\n\
         \x20 WRITE \"block end\\n\"\n\
         [SEC] LINE$\n\
         \x20 WRITE \"    \\v\\n\"\n",
    )
    .unwrap()
}

#[test]
fn test_compile_skips_ellipsis_block_and_section_nodes() {
    let lang = skip_wrapper_lang();
    let mut asts = AstMap::default();
    let slot = asts.insert(
        "parse:includeme".to_string(),
        NodeBuilder::block(">")
            .add_prop(("id".into(), "includeme".into()))
            .add_section(vec![Node::new_line("hello")])
            .done(),
    );
    let pointer = Pointer(slot);
    let mut ellipsis = Node::ellipsis();
    ellipsis.pointer = Some(pointer);
    let mut node = NodeBuilder::root()
        .add_section(vec![])
        .add_section(vec![NodeBuilder::block(">")
            .add_prop(("src".into(), "includeme".into()))
            .add_section(vec![ellipsis, Node::new_line("world")])
            .done()])
        .done();

    let result = compile(&mut node, &mut asts, &lang).unwrap();
    assert_eq!(
        &result,
        "block start\n  section start\n    hello\n    world\n  section end\nblock end\n"
    );
}

#[test]
fn pointer_of_a_block_compiles_the_children_of_its_target() {
    let lang = skip_wrapper_lang();
    let mut asts = AstMap::default();
    let target = NodeBuilder::block(">")
        .add_section(vec![Node::new_line("hello")])
        .done();
    let slot = asts.insert("parse:t".to_string(), target.clone());
    let mut by_pointer = NodeBuilder::root()
        .add_section(vec![NodeBuilder::block(">")
            .pointer(Some(Pointer(slot)))
            .done()])
        .done();
    let mut by_children = NodeBuilder::root()
        .add_section(vec![target])
        .done();
    let a = compile(&mut by_pointer, &mut asts, &lang).unwrap();
    let b = compile(&mut by_children, &mut asts, &lang).unwrap();
    assert_eq!(a, b);
    assert_eq!(a, "block start\n  section start\n    hello\n  section end\nblock end\n");
    // the target is back in its slot
    assert!(asts.get("parse:t").is_some());
}

#[test]
fn dead_and_circular_pointers_are_errors() {
    let lang = skip_wrapper_lang();
    let mut asts = AstMap::default();
    let mut dead = NodeBuilder::block(">").pointer(Some(Pointer(3))).done();
    assert_eq!(
        compile(&mut dead, &mut asts, &lang),
        Err(LibError::DeadPointer(3))
    );
    let slot = asts.ensure("parse:loop");
    let looping = NodeBuilder::root()
        .add_section(vec![NodeBuilder::block(">")
            .pointer(Some(Pointer(slot)))
            .done()])
        .done();
    asts.insert("parse:loop".to_string(), looping);
    let mut host = NodeBuilder::block(">").pointer(Some(Pointer(slot))).done();
    assert_eq!(
        compile(&mut host, &mut asts, &lang),
        Err(LibError::PointerCycle(slot))
    );
    assert!(asts.get("parse:loop").is_some());
}

#[test]
fn join_is_written_between_siblings_and_after_the_last_below_a_root() {
    let lang = Lang::new(
        "RULES FOR test PRODUCE text/plain\n\
         COMPILE RULES:\n\
         ^[]$\n\
         \x20 PUSH join \"|\"\n\
         LINE$\n\
         \x20 WRITE \"\\v\"\n",
    )
    .unwrap();
    let mut asts = AstMap::default();
    let mut root = NodeBuilder::root()
        .children(vec![Node::new_line("a"), Node::new_line("b")])
        .done();
    assert_eq!(compile(&mut root, &mut asts, &lang).unwrap(), "a|b|");
    let lang = Lang::new(
        "RULES FOR test PRODUCE text/plain\n\
         COMPILE RULES:\n\
         [SEC]$\n\
         \x20 PUSH join \", \"\n\
         LINE$\n\
         \x20 WRITE \"\\v\"\n",
    )
    .unwrap();
    let mut section = NodeBuilder::new(murkdown::ast::Rule::Section)
        .children(vec![Node::new_line("a"), Node::new_line("b"), Node::new_line("c")])
        .done();
    assert_eq!(compile(&mut section, &mut asts, &lang).unwrap(), "a, b, c");
}

#[test]
fn invalid_instruction_fails_the_compile_with_its_text() {
    let lang = Lang::new(
        "RULES FOR test PRODUCE text/plain\n\
         COMPILE RULES:\n\
         LINE$\n\
         \x20 FROB foo \"bar\" PROP x\n",
    )
    .unwrap();
    let mut asts = AstMap::default();
    let mut node = Node::new_line("a");
    assert_eq!(
        compile(&mut node, &mut asts, &lang),
        Err(LibError::InvalidRule("FROB foo \"bar\" PROP x".to_string()))
    );
}

#[test]
fn a_failed_compile_puts_every_node_back() {
    let lang = Lang::new(
        "RULES FOR test PRODUCE text/plain\n\
         COMPILE RULES:\n\
         LINE$\n\
         \x20 FROB\n",
    )
    .unwrap();
    let mut asts = AstMap::default();
    let target = NodeBuilder::root()
        .add_section(vec![Node::new_line("foo")])
        .done();
    let slot = asts.insert("parse:t".into(), target.clone());
    let other = asts.insert("parse:u".into(), Node::new_line("bar"));
    let mut node = NodeBuilder::root()
        .children(vec![NodeBuilder::block(">").pointer(Some(Pointer(slot))).done()])
        .done();
    let before = node.clone();
    assert_eq!(
        compile(&mut node, &mut asts, &lang),
        Err(LibError::InvalidRule("FROB".to_string()))
    );
    assert_eq!(asts.len(), 2);
    assert_eq!(asts.get("parse:t"), Some(&target));
    assert_eq!(asts.get("parse:u"), Some(&Node::new_line("bar")));
    assert_eq!(asts.slot_of("parse:u"), Some(other));
    assert_eq!(node, before);

    // a pointer into its own target fails, and the target is back in its slot
    let mut asts = AstMap::default();
    let slot = asts.ensure("parse:loop");
    let looping = NodeBuilder::root()
        .children(vec![NodeBuilder::block(">").pointer(Some(Pointer(slot))).done()])
        .done();
    asts.insert("parse:loop".into(), looping.clone());
    let mut node = NodeBuilder::block(">").pointer(Some(Pointer(slot))).done();
    assert_eq!(compile(&mut node, &mut asts, &markdown()), Err(LibError::PointerCycle(slot)));
    assert_eq!(asts.get("parse:loop"), Some(&looping));
}

#[test]
fn a_pointer_compiles_as_the_children_of_its_target() {
    let lang = markdown();
    let children = vec![
        NodeBuilder::new(murkdown::ast::Rule::Section)
            .children(vec![Node::new_line("foo"), Node::new_line("bar")])
            .done(),
    ];
    let mut asts = AstMap::default();
    let slot = asts.insert(
        "parse:t".into(),
        NodeBuilder::block("*").children(children.clone()).done(),
    );
    // the node's own children are not emitted, and its own rules run once
    let mut pointing = NodeBuilder::root()
        .children(vec![NodeBuilder::block(">")
            .pointer(Some(Pointer(slot)))
            .children(vec![Node::new_line("own")])
            .done()])
        .done();
    let mut copied = NodeBuilder::root()
        .children(vec![NodeBuilder::block(">").children(children).done()])
        .done();
    let with_pointer = compile(&mut pointing, &mut asts, &lang).unwrap();
    let with_children = compile(&mut copied, &mut asts, &lang).unwrap();
    assert_eq!(with_pointer, "> foo\n> bar\n");
    assert_eq!(with_pointer, with_children);
}
