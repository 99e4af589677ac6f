use murkdown::cli::graph::OpGraph;
use murkdown::cli::graph_sorter::{add_edge, grouped_topological_sort};
use murkdown::cli::op::{Op, OpId, Operation};
use murkdown::cli::types::{AppError, Source};

#[test]
fn graph_test_graph() {
    let mut graph = OpGraph::new();
    graph.insert_node(Operation::Load {
        id: String::from("foo"),
        source: Source::empty(),
    });
    graph.insert_node(Operation::Load {
        id: String::from("bar"),
        source: Source::empty(),
    });

    assert_eq!(graph.len(), 2);
}

#[test]
fn test_graph_iter() {
    let mut graph = OpGraph::new();
    graph.insert_node(Operation::Load {
        id: String::from("foo"),
        source: Source::empty(),
    });
    graph.insert_node(Operation::Load {
        id: String::from("bar"),
        source: Source::empty(),
    });
    graph.add_dependency(OpId::load("foo"), OpId::load("bar"));

    let mut result = vec![];
    for (from, _vertex, edges) in graph.iter() {
        let deps = edges.iter().cloned().collect::<Vec<_>>();
        result.push((from, deps));
    }
    result.sort();
    assert_eq!(
        result,
        [
            (OpId::load("bar"), vec![]),
            (OpId::load("foo"), vec![OpId::load("bar")]),
        ]
    );
}

#[test]
fn test_topological_sort() {
    let mut graph = OpGraph::new();
    let load = graph.insert_node(Operation::Load {
        id: "file.md".into(),
        source: Source::from_text("examples/file.md"),
    });
    let parse = graph.insert_node(Operation::Parse { id: "file.md".into() });
    graph.add_dependency(parse.clone(), load.clone());

    let result = grouped_topological_sort(&graph).unwrap();
    assert_eq!(result, vec![vec![load], vec![parse]]);
}

#[test]
fn test_layered_topological_sort() {
    let mut graph = OpGraph::new();
    let load1 = graph.insert_node(Operation::Load {
        id: "file1.md".into(),
        source: Source::from_text("examples/file1.md"),
    });
    let parse1 = graph.insert_node(Operation::Parse { id: "file1.md".into() });

    let load2 = graph.insert_node(Operation::Load {
        id: "file2.md".into(),
        source: Source::from_text("examples/file2.md"),
    });
    let parse2 = graph.insert_node(Operation::Parse { id: "file2.md".into() });

    let finish = graph.insert_node(Operation::Finish);
    graph.add_dependency(parse1.clone(), load1.clone());
    graph.add_dependency(parse2.clone(), load2.clone());
    graph.add_dependency(finish.clone(), parse1.clone());
    graph.add_dependency(finish.clone(), parse2.clone());

    let result = grouped_topological_sort(&graph).unwrap();
    assert_eq!(
        result,
        vec![vec![load1, load2], vec![parse1, parse2], vec![finish]]
    );
}

#[test]
fn levels_are_sorted_by_kind_and_then_by_id() {
    let mut graph = OpGraph::new();
    for id in ["b", "a", "c"] {
        graph.insert_node(Operation::Write { id: id.into() });
        graph.insert_node(Operation::Load { id: id.into(), source: Source::empty() });
    }
    let result = grouped_topological_sort(&graph).unwrap();
    assert_eq!(
        result,
        vec![vec![
            OpId::load("a"),
            OpId::load("b"),
            OpId::load("c"),
            OpId::write("a"),
            OpId::write("b"),
            OpId::write("c"),
        ]]
    );
    // the order is that of the derived one
    let mut derived = result[0].clone();
    derived.reverse();
    derived.sort();
    assert_eq!(derived, result[0]);
    assert!(OpId::load("a").less(&OpId::load("b")));
    assert!(OpId::load("z").less(&OpId::write("a")));
    assert!(!OpId::load("a").less(&OpId::load("a")));
    assert!(OpId::load("a").same(&OpId::load("a")));
    assert!(!OpId::load("a").same(&OpId::parse("a")));
}

#[test]
fn cycles_and_missing_dependencies_are_in_no_level() {
    let mut graph = OpGraph::new();
    let a = graph.insert_node(Operation::Parse { id: "a".into() });
    let b = graph.insert_node(Operation::Parse { id: "b".into() });
    let c = graph.insert_node(Operation::Parse { id: "c".into() });
    let free = graph.insert_node(Operation::Finish);
    graph.add_dependency(a.clone(), b.clone());
    graph.add_dependency(b.clone(), a.clone());
    graph.add_dependency(c.clone(), OpId::load("nowhere"));
    let result = grouped_topological_sort(&graph).unwrap();
    assert_eq!(result, vec![vec![free]]);
    assert_eq!(grouped_topological_sort(&OpGraph::new()).unwrap(), Vec::<Vec<OpId>>::new());
}

#[test]
fn chains_and_dependencies() {
    let mut graph = OpGraph::new();
    graph.insert_node_chain(vec![
        Operation::Load { id: "x".into(), source: Source::empty() },
        Operation::Parse { id: "x".into() },
        Operation::Finish,
    ]);
    assert_eq!(graph.len(), 3);
    assert_eq!(graph.get_dependencies(&OpId::load("x")), vec![]);
    assert_eq!(graph.get_dependencies(&OpId::parse("x")), vec![OpId::load("x")]);
    assert_eq!(graph.get_dependencies(&OpId::finish()), vec![OpId::parse("x")]);
    // a second chain through the same sink adds an edge, and a repeated edge adds nothing
    graph.insert_node_chain(vec![
        Operation::Load { id: "y".into(), source: Source::empty() },
        Operation::Finish,
    ]);
    graph.add_dependency(OpId::finish(), OpId::parse("x"));
    assert_eq!(
        graph.get_dependencies(&OpId::finish()),
        vec![OpId::parse("x"), OpId::load("y")]
    );
    assert_eq!(graph.len(), 4);
    // inserting again replaces the operation
    graph.insert_node(Operation::Load { id: "x".into(), source: Source::from_text("other") });
    assert_eq!(graph.len(), 4);
    assert_eq!(
        graph.get(&OpId::load("x")),
        Some(&Operation::Load { id: "x".into(), source: Source::from_text("other") })
    );
    assert_eq!(graph.get(&OpId::load("nope")), None);
    assert_eq!(
        graph.get_first_dependency(&OpId::finish()),
        Some(&Operation::Parse { id: "x".into() })
    );
    assert_eq!(
        graph.get_first_node_dependency(&Operation::Parse { id: "x".into() }),
        Some(OpId::load("x"))
    );
    assert_eq!(graph.get_first_node_dependency(&Operation::Load { id: "x".into(), source: Source::empty() }), None);
    assert!(graph.get_uri("ast:x").is_some());
    assert!(graph.get_uri("ast:y").is_none());
    graph.clear();
    assert_eq!(graph.len(), 0);
    assert_eq!(graph.get_dependencies(&OpId::finish()), vec![]);
}

#[test]
fn edges_are_kept_by_source_without_duplicates() {
    let mut keys = Vec::new();
    let mut lists = Vec::new();
    add_edge(&mut keys, &mut lists, OpId::load("a"), OpId::parse("a"));
    add_edge(&mut keys, &mut lists, OpId::load("a"), OpId::parse("b"));
    add_edge(&mut keys, &mut lists, OpId::load("a"), OpId::parse("a"));
    add_edge(&mut keys, &mut lists, OpId::load("b"), OpId::parse("a"));
    assert_eq!(keys, vec![OpId::load("a"), OpId::load("b")]);
    assert_eq!(
        lists,
        vec![vec![OpId::parse("a"), OpId::parse("b")], vec![OpId::parse("a")]]
    );
}

#[test]
fn ids_and_uris() {
    let cases = [
        (OpId::gather(), "gather:", ""),
        (OpId::exec("x"), "exec:x", "x"),
        (OpId::load("x"), "file:x", "x"),
        (OpId::parse("x"), "ast:x", "x"),
        (OpId::preprocess("x"), "parse:x", "x"),
        (OpId::compile("x"), "compile:x", "x"),
        (OpId::copy("x"), "copy:x", "x"),
        (OpId::write("x"), "write:x", "x"),
        (OpId::graph("dependencies"), "graph:dependencies", "dependencies"),
        (OpId::finish(), "finish:", ""),
        (OpId(Op::Tangle, "t".into()), "tangle:t", "t"),
        (OpId(Op::CompilePlaintext, "t".into()), "compileplain:t", "t"),
    ];
    for (id, uri, path) in cases {
        assert_eq!(id.uri(), uri);
        assert_eq!(id.uri_path(), path);
    }
    assert_eq!(OpId::load("foo").uid(), "ZmlsZTpmb28");
    assert_eq!(OpId::finish().uid(), "ZmluaXNoOg");
    assert!(OpId::graph("dependencies").is_hidden());
    assert!(!OpId::load("x").is_hidden());
    assert_eq!(OpId::default(), OpId::finish());
    assert_eq!(OpId::from_str("file:a:b"), Ok(OpId::load("a:b")));
    assert_eq!(OpId::from_str("ast:x"), Ok(OpId::parse("x")));
    assert_eq!(OpId::from_str("parse:x"), Ok(OpId::preprocess("x")));
    assert_eq!(OpId::from_str("exec:x"), Ok(OpId::exec("x")));
    assert_eq!(OpId::from_str("copy:x"), Ok(OpId::copy("x")));
    assert_eq!(OpId::from_str("nocolon"), Err(AppError::BadUri("nocolon".into())));
    assert_eq!(OpId::from_str("write:x"), Err(AppError::UnknownSchema("write".into())));
    let op = Operation::Preprocess { id: "doc".into(), headers: None };
    assert_eq!(op.uri(), "parse:doc");
    assert_eq!(op.uri_path(), "doc");
    assert_eq!(op.to_text(), "Preprocess doc");
    assert_eq!(op.op(), Op::Preprocess);
    assert_eq!(Operation::Finish.to_text(), "Finish");
    assert_eq!(op.duplicate(), op);
}
