use std::collections::HashSet;

use murkdown::ast::{Node, NodeBuilder, Rule};
use murkdown::compiler::lang::Lang;
use murkdown::compiler::rule::LangSettings;
use murkdown::preprocessor::{
    preprocess, preprocess_headers, preprocess_ids, preprocess_paragraphs, resolve_path,
    resolve_scheme_path,
};
use murkdown::types::{AstMap, Dependency, ExecArtifact, LibError, Location, LocationMap, Pointer};

fn markdown() -> Lang {
    Lang::new(
        "RULES FOR markdown PRODUCE text/markdown\n\
         PREPROCESS RULES:\n\
         [...DATE...]$\n\
         \x20 PUSH src \"exec?:date\"\n\
         \x20 EXEC \"date\" TO text/plain AS \"date\"\n\
         COMPILE RULES:\n\
         ^[...]$\n\
         \x20 NOOP\n\
         [SEC...]$\n\
         \x20 NOOP\n\
         [...]$\n\
         \x20 PUSH indent \"\\m \"\n\
         \x20 YIELD\n\
         \x20 POP indent\n\
         LINE$\n\
         \x20 IS UNESCAPED_VALUE\n\
         \x20 WRITEALL indent\n\
         \x20 WRITE \"\\v\\n\"\n",
    )
    .expect("builtin markdown to work")
}

fn paragraphable() -> Lang {
    Lang::new(
        "RULES FOR test PRODUCE text/plain\n\
         PREPROCESS RULES:\n\
         [SEC...]$\n\
         \x20 IS PARAGRAPHABLE\n",
    )
    .unwrap()
}

fn path(p: &str) -> Location {
    Location::Path(p.to_string())
}

#[test]
fn test_preprocess_adds_pointer_to_block() {
    let mut asts = AstMap::default();
    let mut node = NodeBuilder::root()
        // NOTE: no section
        .children(vec![NodeBuilder::block(">")
            .add_prop(("src".into(), "bar".into()))
            .done()])
        .done();
    let mut locs = LocationMap::new();
    locs.insert("bar".to_string(), path("something.txt"));
    let lang = markdown();
    preprocess(&mut node, &mut asts, &locs, "", &lang).unwrap();

    let section = node.children.as_ref().unwrap().first().unwrap();
    let block = section.children.as_ref().unwrap().first().unwrap();
    assert!(block.pointer.is_some());
}

#[test]
fn test_preprocess_adds_pointer_to_block_section() {
    let mut asts = AstMap::default();
    let mut node = NodeBuilder::root()
        .add_section(vec![NodeBuilder::block(">")
            .add_prop(("src".into(), "bar".into()))
            .done()])
        .done();
    let mut locs = LocationMap::new();
    locs.insert("bar".to_string(), path("something.txt"));
    let lang = markdown();
    preprocess(&mut node, &mut asts, &locs, "", &lang).unwrap();

    let section = node.children.as_ref().unwrap().first().unwrap();
    let block = section.children.as_ref().unwrap().first().unwrap();
    let block_section = block.children.as_ref().unwrap().first().unwrap();

    assert_eq!(block_section.rule, Rule::Section);
    assert!(block_section.pointer.is_some());
}

#[test]
fn test_preprocess_adds_pointer_at_ellipsis() {
    let mut asts = AstMap::default();
    let mut node = NodeBuilder::root()
        .children(vec![NodeBuilder::block(">")
            .add_prop(("src".into(), "bar".into()))
            .add_section(vec![
                Node::new_line("foo"),
                NodeBuilder::new(Rule::Ellipsis).done(),
                Node::new_line("baz"),
            ])
            .done()])
        .done();
    let locs = LocationMap::new();
    let lang = markdown();

    preprocess(&mut node, &mut asts, &locs, "", &lang).unwrap();

    let block = node.children.as_ref().unwrap().first().unwrap();
    let section = block.children.as_ref().unwrap().first().unwrap();
    let ellipsis = section
        .children
        .as_ref()
        .unwrap()
        .into_iter()
        .nth(1)
        .unwrap();

    assert_eq!(ellipsis.rule, Rule::Ellipsis);
    assert!(ellipsis.pointer.is_some());
}

#[test]
fn test_preprocess_does_not_add_pointer_for_ref() {
    let mut asts = AstMap::default();
    let mut node = NodeBuilder::root()
        .add_section(vec![NodeBuilder::block(">")
            .add_prop(("ref".into(), "bar".into()))
            .done()])
        .done();
    let locs = LocationMap::new();
    let lang = markdown();
    preprocess(&mut node, &mut asts, &locs, "", &lang).unwrap();

    let section = node.children.as_ref().unwrap().first().unwrap();
    let block = section.children.as_ref().unwrap().first().unwrap();

    assert_eq!(block.rule, Rule::Block);
    assert!(block.pointer.is_none());
}

#[test]
fn test_preprocess_adds_asts() {
    let mut asts = AstMap::default();
    let mut node = NodeBuilder::root()
        .children(vec![
            NodeBuilder::block(">")
                .add_prop(("src".into(), "foo".into()))
                .done(),
            NodeBuilder::block(">")
                .add_prop(("src".into(), "bar".into()))
                .done(),
            NodeBuilder::block(">")
                .add_prop(("src".into(), "exec?:baz".into()))
                .done(),
            NodeBuilder::block(">")
                .add_prop(("src".into(), "exec:code.sh".into()))
                .done(),
        ])
        .done();
    let mut locs = LocationMap::new();
    locs.insert("bar".to_string(), path("something.txt"));
    locs.insert("file.md".to_string(), path("file.md"));
    locs.insert("path/code.sh".to_string(), path("path/code.sh"));
    let lang = markdown();

    preprocess(&mut node, &mut asts, &locs, "file.md", &lang).unwrap();

    let mut ast_keys = asts.keys();
    ast_keys.sort();
    assert_eq!(
        ast_keys,
        vec![
            "exec:baz",
            "exec:path/code.sh",
            "parse:bar",
            "parse:file.md#foo"
        ]
    );
}

#[test]
fn test_preprocess_moves_id_to_asts_and_processes_children() {
    let mut asts = AstMap::default();
    let block = NodeBuilder::block(">")
        .add_prop(("id".into(), "bar".into()))
        .add_section(vec![NodeBuilder::block("*")
            .children(vec![Node::new_line("foo")])
            .done()])
        .done();
    let expected_block = NodeBuilder::block(">")
        .add_prop(("id".into(), "bar".into()))
        .add_section(vec![NodeBuilder::block("*")
            .headers(Some(vec![String::from("LIST")]))
            .children(vec![Node::new_line("foo")])
            .done()])
        .done();

    let mut node = NodeBuilder::root().children(vec![block.clone()]).done();
    let locs = LocationMap::new();
    let lang = markdown();
    preprocess(&mut node, &mut asts, &locs, "foo", &lang).unwrap();

    let moved_block = asts.get("parse:foo#bar").unwrap();
    assert_eq!(*moved_block, expected_block);
}

#[test]
fn test_preprocess_moves_node_id_to_asts() {
    let mut asts = AstMap::default();
    let block = NodeBuilder::block(">")
        .add_prop(("id".into(), "bar".into()))
        .done();

    let mut node = NodeBuilder::root().children(vec![block.clone()]).done();
    let locs = LocationMap::new();
    let lang = markdown();
    preprocess(&mut node, &mut asts, &locs, "foo", &lang).unwrap();

    let new_block = node.children.as_ref().unwrap().first().unwrap();
    assert!(new_block.pointer.is_some());

    let moved_block = asts.get("parse:foo#bar").unwrap();
    assert_eq!(*moved_block, block);
}

#[test]
fn test_preprocess_resolves_paths_and_fragments() {
    let mut asts = AstMap::default();
    asts.insert("parse:other.md#bar".to_string(), Node::new_line("other"));

    let mut node = NodeBuilder::root()
        .children(vec![NodeBuilder::block(">")
            .add_prop(("src".into(), "#bar".into()))
            .done()])
        .done();
    let mut locs = LocationMap::new();
    let lang = markdown();
    locs.insert("file.md".to_string(), path("file.md"));
    locs.insert("other.md".to_string(), path("other.md"));
    preprocess(&mut node, &mut asts, &locs, "file.md", &lang).unwrap();

    let section = node.children.as_ref().unwrap().first().unwrap();
    let block = section.children.as_ref().unwrap().first().unwrap();
    assert!(block.pointer.is_some());
}

#[test]
fn test_preprocess_returns_deps_and_new_asts() {
    let mut asts = AstMap::default();

    let mut node = NodeBuilder::root()
        .children(vec![
            NodeBuilder::block(">")
                .add_prop(("id".into(), "code".into()))
                .done(),
            NodeBuilder::block(">")
                .add_prop(("src".into(), "exec:code".into()))
                .done(),
        ])
        .done();
    let mut locs = LocationMap::new();
    let lang = markdown();
    locs.insert("file.md".to_string(), path("file.md"));
    let (deps, new_asts) = preprocess(&mut node, &mut asts, &locs, "file.md", &lang).unwrap();

    assert_eq!(
        deps.into_iter().collect::<HashSet<_>>(),
        HashSet::from([Dependency::URI("src", "exec:file.md#code".to_string()),])
    );
    assert_eq!(
        new_asts.into_iter().collect::<HashSet<_>>(),
        HashSet::from(["parse:file.md#code".to_string()])
    );
}

#[test]
fn test_preprocess_runs_precompile() {
    let mut asts = AstMap::default();
    let mut node = NodeBuilder::root()
        .add_section(vec![NodeBuilder::block(">")
            .headers(Some(vec![String::from("DATE")]))
            .done()])
        .done();
    let mut locs = LocationMap::new();
    locs.insert("file.md".to_string(), path("file.md"));
    let lang = markdown();

    let (deps, _) = preprocess(&mut node, &mut asts, &locs, "file.md", &lang).unwrap();

    assert_eq!(
        deps.into_iter().collect::<HashSet<_>>(),
        HashSet::from([
            Dependency::Exec {
                cmd: "date".to_string(),
                input: None,
                artifact: ExecArtifact::Stdout("text/plain".to_string()),
                id: "date".into(),
            },
            Dependency::URI("src", "exec:date".to_string()),
        ])
    );

    let section = node.children.as_ref().unwrap().first().unwrap();
    let block = section.children.as_ref().unwrap().first().unwrap();

    assert_eq!(block.props, Some(vec![("src".into(), "exec?:date".into())]));
}

#[test]
fn test_preprocess_builds_paragraphs_but_retains_empty_lines() {
    let mut asts = AstMap::default();
    let mut node = NodeBuilder::root().add_section(vec![Node::new_line("")]).done();
    let locs = LocationMap::new();
    let lang = paragraphable();
    preprocess(&mut node, &mut asts, &locs, "", &lang).unwrap();

    let section = node.children.as_ref().unwrap().first().unwrap();
    let children = section.children.as_ref().unwrap();
    assert_eq!(children, &vec![Node::new_line(""),]);
}

#[test]
fn test_preprocess_builds_paragraphs() {
    let mut asts = AstMap::default();
    let mut node = NodeBuilder::root()
        .add_section(vec![
            Node::new_line("foo"),
            Node::new_line("bar"),
            Node::new_line("baz"),
            Node::ellipsis(),
            Node::new_line("foo"),
            Node::new_line("bar"),
            Node::ellipsis(),
            Node::new_line(""),
            Node::new_line("foo"),
            Node::new_line(""),
            Node::ellipsis(),
            Node::new_line("bar"),
        ])
        .done();
    let locs = LocationMap::new();
    let lang = paragraphable();
    preprocess(&mut node, &mut asts, &locs, "", &lang).unwrap();

    let section = node.children.as_ref().unwrap().first().unwrap();
    let children = section.children.as_ref().unwrap();
    assert_eq!(
        children,
        &vec![
            Node::paragraph(&["foo", "bar", "baz"]),
            Node::ellipsis(),
            Node::paragraph(&["foo", "bar"]),
            Node::ellipsis(),
            Node::new_line(""),
            Node::paragraph(&["foo"]),
            Node::new_line(""),
            Node::ellipsis(),
            Node::paragraph(&["bar"]),
        ]
    );
}

#[test]
fn paragraph_fold_of_a_section_that_ends_in_a_line() {
    let mut section = NodeBuilder::new(Rule::Section)
        .children(vec![
            Node::new_line("foo"),
            Node::new_line("bar"),
            Node::new_line("baz"),
            Node::ellipsis(),
            Node::new_line(""),
            Node::new_line("foo"),
        ])
        .done();
    let on = LangSettings { is_paragraphable: true, ..LangSettings::default() };
    let unchanged = section.clone();
    preprocess_paragraphs(&mut section, &LangSettings::default());
    assert_eq!(section, unchanged);
    preprocess_paragraphs(&mut section, &on);
    assert_eq!(
        section.children,
        Some(vec![
            Node::paragraph(&["foo", "bar", "baz"]),
            Node::ellipsis(),
            Node::new_line(""),
            Node::paragraph(&["foo"]),
        ])
    );
    let mut with_headers = NodeBuilder::new(Rule::Section)
        .headers(Some(vec!["H".to_string()]))
        .children(vec![Node::new_line("foo")])
        .done();
    preprocess_paragraphs(&mut with_headers, &on);
    assert_eq!(with_headers.headers, Some(vec!["H".to_string()]));
    assert_eq!(with_headers.children, Some(vec![Node::paragraph(&["foo"])]));
}

#[test]
fn markers_imply_headers_once() {
    let mut heading = NodeBuilder::block("#").done();
    preprocess_headers(&mut heading);
    assert_eq!(heading.headers, Some(vec!["HEADING".to_string()]));
    preprocess_headers(&mut heading);
    assert_eq!(heading.headers, Some(vec!["HEADING".to_string()]));
    let mut list = NodeBuilder::block("*")
        .headers(Some(vec!["X".to_string()]))
        .done();
    preprocess_headers(&mut list);
    assert_eq!(list.headers, Some(vec!["X".to_string(), "LIST".to_string()]));
    let mut code = NodeBuilder::block("   ").done();
    preprocess_headers(&mut code);
    assert_eq!(code.headers, Some(vec!["CODE".to_string()]));
    let mut quote = NodeBuilder::block(">").done();
    preprocess_headers(&mut quote);
    assert_eq!(quote.headers, None);
}

#[test]
fn ids_move_nodes_and_alias_pointers() {
    let mut asts = AstMap::default();
    let mut new_asts = Vec::new();
    let whole = NodeBuilder::block(">")
        .add_prop(("id".into(), "x".into()))
        .add_section(vec![Node::new_line("kept")])
        .done();
    let mut node = whole.clone();
    preprocess_ids(&mut node, &mut asts, "ctx", &mut new_asts).unwrap();
    assert_eq!(asts.get("parse:ctx#x"), Some(&whole));
    assert_eq!(node.children, None);
    assert_eq!(node.props, whole.props);
    assert_eq!(node.marker, whole.marker);
    let slot = asts.slot_of("parse:ctx#x").unwrap();
    assert_eq!(node.pointer.map(|p| p.0), Some(slot));
    assert_eq!(new_asts, vec!["parse:ctx#x".to_string()]);

    // a second node with the same id in the same walk is refused
    let mut twin = whole.clone();
    assert_eq!(
        preprocess_ids(&mut twin, &mut asts, "ctx", &mut new_asts),
        Err(LibError::DuplicateId("parse:ctx#x".to_string()))
    );
    assert_eq!(twin, whole);
    // in another walk it takes the place of the first
    let mut later = Vec::new();
    let mut again = whole.clone();
    again.add_prop("more", "m".to_string());
    preprocess_ids(&mut again, &mut asts, "ctx", &mut later).unwrap();
    assert_eq!(asts.slot_of("parse:ctx#x"), Some(slot));
    assert_eq!(asts.get("parse:ctx#x").unwrap().find_prop("more"), Some("m".to_string()));

    // an empty context is a context like any other
    let mut bare = whole.clone();
    preprocess_ids(&mut bare, &mut asts, "", &mut new_asts).unwrap();
    assert_eq!(asts.get("parse:#x"), Some(&whole));
    assert_eq!(asts.get("x"), None);

    // a node with a pointer gives its target one more name
    let mut pointing = NodeBuilder::block(">")
        .add_prop(("id".into(), "y".into()))
        .pointer(Some(Pointer(slot)))
        .done();
    preprocess_ids(&mut pointing, &mut asts, "ctx", &mut new_asts).unwrap();
    assert_eq!(asts.slot_of("parse:ctx#y"), Some(slot));
    assert_eq!(
        preprocess_ids(&mut pointing, &mut asts, "ctx", &mut new_asts),
        Err(LibError::DuplicateId("parse:ctx#y".to_string()))
    );
    let mut dead = NodeBuilder::block(">")
        .add_prop(("id".into(), "z".into()))
        .pointer(Some(Pointer(99)))
        .done();
    assert_eq!(
        preprocess_ids(&mut dead, &mut asts, "ctx", &mut new_asts),
        Err(LibError::DeadPointer(99))
    );
}

fn keys(list: &[&str]) -> Vec<String> {
    list.iter().map(|s| s.to_string()).collect()
}

#[test]
fn test_within() {
    let map = keys(&["aaa/bar", "bbb/bar"]);
    assert_eq!(resolve_path("bar", &map, "bbb"), Some("bbb/bar".to_string()));
}

#[test]
fn test_adjecent() {
    let map = keys(&["aaa/bar", "bbb/111/foo", "bbb/222/bar"]);

    // prefer sibling match
    assert_eq!(
        resolve_path("bar", &map, "bbb/111"),
        Some("bbb/222/bar".to_string())
    );
}

#[test]
fn test_fragments() {
    let map = keys(&[
        "bbb/111#id",
        "bbb/222#id",
        "bbb/222#win",
        "aaa/111#id",
        "aaa/111#win",
    ]);
    assert_eq!(
        resolve_path("#id", &map, "bbb/111"),
        Some("bbb/111#id".to_string())
    );

    assert_eq!(
        resolve_path("#win", &map, "bbb/111"),
        Some("bbb/222#win".to_string())
    );
}

#[test]
fn test_schemas() {
    let map = keys(&[
        "this:bbb/baz#id",
        "other:bbb/baz#win",
        "this:aaa/bar#id",
        "this:aaa/bar#win",
    ]);
    // prefer sibling match
    assert_eq!(
        resolve_scheme_path("#id", "this", &map, "bbb/bar"),
        Some("bbb/baz#id".to_string())
    );
    // then from top
    assert_eq!(
        resolve_scheme_path("#win", "this", &map, "???/bar"),
        Some("aaa/bar#win".to_string())
    );
    // should not match other schemas
    assert_eq!(resolve_scheme_path("baz#win", "this", &map, ""), None);
}

#[test]
fn resolution_takes_the_least_of_the_first_round_that_has_a_match() {
    let map = keys(&["zzz/x", "ctx/b/x", "ctx/a/x", "ctx2/x", "other/x"]);
    // within the context, the least
    assert_eq!(resolve_path("x", &map, "ctx/"), Some("ctx/a/x".to_string()));
    // beside the context, below its first segment
    let map = keys(&["zzz/x", "ctx/b/x", "aaa/x"]);
    assert_eq!(resolve_path("x", &map, "ctx/a"), Some("ctx/b/x".to_string()));
    // anywhere
    let map = keys(&["zzz/x", "aaa/x"]);
    assert_eq!(resolve_path("x", &map, "ctx/a"), Some("aaa/x".to_string()));
    assert_eq!(resolve_path("y", &map, "ctx/a"), None);
    assert_eq!(resolve_path("x", &Vec::new(), ""), None);
}

#[test]
fn folding_can_be_undone() {
    let on = LangSettings { is_paragraphable: true, ..LangSettings::default() };
    let children = vec![
        Node::new_line("a"),
        Node::new_line("b"),
        Node::new_line(""),
        Node::ellipsis(),
        Node::new_line("c"),
        NodeBuilder::block(">").done(),
        Node::new_line("d"),
        Node::new_line("e"),
        Node::new_line("f"),
    ];
    let mut section = NodeBuilder::new(Rule::Section).children(children.clone()).done();
    preprocess_paragraphs(&mut section, &on);
    let folded = section.children.clone().unwrap();
    assert_eq!(folded.len(), 6);
    // what is no line of text is a child as before, in the same order
    let breaks: Vec<Node> = folded.iter().filter(|n| n.rule != Rule::Paragraph).cloned().collect();
    assert_eq!(breaks, vec![Node::new_line(""), Node::ellipsis(), NodeBuilder::block(">").done()]);
    // every paragraph holds lines of text, and its value is theirs joined
    let mut flat: Vec<Node> = Vec::new();
    for n in folded {
        if n.rule == Rule::Paragraph {
            let lines = n.children.clone().unwrap();
            let values: Vec<String> = lines.iter().map(|l| l.value.clone().unwrap()).collect();
            assert!(values.iter().all(|v| !v.is_empty()));
            assert!(lines.iter().all(|l| l.rule == Rule::Line));
            assert_eq!(n.value, Some(values.join(" ")));
            flat.extend(lines);
        } else {
            flat.push(n);
        }
    }
    assert_eq!(flat, children);
}

#[test]
fn a_failed_walk_loses_nothing_of_the_map() {
    let mut asts = AstMap::default();
    let kept = asts.insert("parse:kept".into(), Node::new_line("x"));
    let locs = LocationMap::new();
    let mut node = NodeBuilder::root()
        .children(vec![
            NodeBuilder::block(">").add_prop(("id".into(), "x".into())).done(),
            NodeBuilder::block(">").add_prop(("id".into(), "x".into())).done(),
        ])
        .done();
    assert_eq!(
        preprocess(&mut node, &mut asts, &locs, "doc", &markdown()),
        Err(LibError::DuplicateId("parse:doc#x".to_string()))
    );
    assert_eq!(asts.slot_of("parse:kept"), Some(kept));
    assert_eq!(asts.get("parse:kept"), Some(&Node::new_line("x")));
    assert!(asts.get("parse:doc#x").is_some());
}
