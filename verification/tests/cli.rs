use std::collections::HashSet;
use std::path::PathBuf;

use murkdown::ast::{Node, NodeBuilder};
use murkdown::cli::command::{parse_log_format, parse_out, Command, Config, GraphType};
use murkdown::cli::op::{OpId, Operation};
use murkdown::cli::schedule::{exec_paths, join_path, schedule_dependencies};
use murkdown::cli::state::{
    is_done, process_error, process_event, process_graph, process_result, Event, State,
};
use murkdown::cli::task::{
    compile, compile_plaintext, copy, exec, exec_input, finish, gather, graph, has_md_extension,
    index, lines_root, load, parse, parse_input, preprocess, set_extension, tangle, Loaded,
    WritePlan,
};
use murkdown::cli::types::{AppError, AppErrorPathCtx, Artifact, Output, Source};
use murkdown::cli::utils::{
    command_args, into_id_source_tuple, into_uri_path_tuple, is_visible, parent, parents,
    split_command,
};
use murkdown::types::{
    Dependency, ExecArtifact, ExecInput, LibError, LibErrorPathCtx, Location,
};

const MARKDOWN: &str = "RULES FOR markdown PRODUCE text/markdown\n\
     PREPROCESS RULES:\n\
     [...DATE...]$\n\
     \x20 PUSH src \"exec?:date\"\n\
     \x20 EXEC \"date\" TO text/plain AS \"date\"\n\
     COMPILE RULES:\n\
     ^[...]$\n\
     \x20 NOOP\n\
     [SEC...]$\n\
     \x20 NOOP\n\
     [...]$\n\
     \x20 PUSH indent \"\\m \"\n\
     \x20 YIELD\n\
     \x20 POP indent\n\
     LINE$\n\
     \x20 IS UNESCAPED_VALUE\n\
     \x20 WRITEALL indent\n\
     \x20 WRITE \"\\v\\n\"\n";

const PLAINTEXT: &str = "RULES FOR plaintext PRODUCE text/plain\n\
     COMPILE RULES:\n\
     LINE$\n\
     \x20 IS UNESCAPED_VALUE\n\
     \x20 WRITE \"\\v\\n\"\n";

fn new_loaded(format: &str) -> State {
    let mut state = State::new();
    let builtin = vec![
        ("markdown".to_string(), MARKDOWN.to_string()),
        ("plaintext".to_string(), PLAINTEXT.to_string()),
    ];
    state
        .load_languages(format, &builtin, None)
        .expect("valid format");
    state
}

fn sorted_ids(state: &State) -> Vec<OpId> {
    let mut keys: Vec<OpId> = state.operations.iter().into_iter().map(|(v, _, _)| v).collect();
    keys.sort();
    keys
}

#[test]
fn test_parents() {
    let result = parents(vec![
        "./foo.md".to_string(),
        "./bar/bar.md".to_string(),
        "./".to_string(),
    ])
    .unwrap();
    let result: HashSet<PathBuf> = result.into_iter().map(PathBuf::from).collect();
    let expected: HashSet<PathBuf> = [PathBuf::from("./"), PathBuf::from("./bar")].into();

    assert_eq!(&result, &expected);
}

#[test]
fn parents_of_text_paths() {
    assert_eq!(parent("a/b/c.md"), Some("a/b".to_string()));
    assert_eq!(parent("a/b/"), Some("a".to_string()));
    assert_eq!(parent("a//b"), Some("a".to_string()));
    assert_eq!(parent("file"), Some("".to_string()));
    assert_eq!(parent("/file"), Some("/".to_string()));
    assert_eq!(parent("/"), None);
    assert_eq!(parent(""), None);
    assert_eq!(
        parents(vec!["x/a".into(), "x/b".into(), "c".into(), "y/d".into()]),
        Ok(vec!["x".to_string(), ".".to_string(), "y".to_string()])
    );
    assert_eq!(
        parents(vec!["x/a".into(), "/".into()]),
        Err(AppError::BadPath("/".to_string()))
    );
}

#[test]
fn walk_filters_and_ids() {
    assert!(is_visible("file.md"));
    assert!(is_visible("."));
    assert!(is_visible("./x"));
    assert!(!is_visible(".git"));
    assert!(!is_visible(".."));
    assert_eq!(
        into_uri_path_tuple("./a/b.md".to_string()),
        ("a/b.md".to_string(), "./a/b.md".to_string())
    );
    assert_eq!(
        into_uri_path_tuple("a/b.md".to_string()),
        ("a/b.md".to_string(), "a/b.md".to_string())
    );
    assert_eq!(
        into_id_source_tuple("./x".to_string()),
        ("x".to_string(), Source::Path("./x".to_string()))
    );
    assert!(has_md_extension("a/b.md"));
    assert!(!has_md_extension("a/.md"));
    assert!(!has_md_extension("a/b.txt"));
    assert!(!has_md_extension("a.md/b"));
}

#[test]
fn commands_are_split_like_a_shell_does() {
    assert_eq!(
        split_command("plantuml -pipe -tpng"),
        ("plantuml".to_string(), "-pipe -tpng".to_string())
    );
    assert_eq!(split_command("date"), ("date".to_string(), "".to_string()));
    assert_eq!(
        command_args("test", "1 = 0"),
        Ok(vec!["1".to_string(), "=".to_string(), "0".to_string()])
    );
    assert_eq!(
        command_args("echo", "'a b' \"c d\" e"),
        Ok(vec!["a b".to_string(), "c d".to_string(), "e".to_string()])
    );
    assert_eq!(
        command_args("echo", "'open"),
        Err(AppError::BadExecArgs { program: "echo".into(), args: "'open".into() })
    );
}

#[test]
fn sources() {
    assert_eq!(Source::empty(), Source::Path(String::new()));
    assert_eq!(Source::from_text("a.md"), Source::Path("a.md".into()));
    assert_eq!(
        Source::from_text("data:,x#f"),
        Source::Url("data:,x#f".into())
    );
    assert_eq!(Source::from_text("a.md").path(), Ok("a.md".to_string()));
    assert_eq!(
        Source::from_text("data:,Hello%20World!#foo").path(),
        Ok("foo".to_string())
    );
    assert_eq!(
        Source::from_text("data:,nofragment").path(),
        Err(AppError::BadDataUrlFragment("data:,nofragment".to_string()))
    );
    assert!(matches!(
        Source::from_text("data:nocomma").path(),
        Err(AppError::BadDataUrl(_))
    ));
    assert!(matches!(
        Source::from_text("data:;base64,!!!!#f").path(),
        Err(AppError::BadDataUrlBase64(_))
    ));
    assert!(Source::from_text("a").is_path("a"));
    assert!(!Source::from_text("data:,a").is_path("data:,a"));
    assert_eq!(Source::from_text("a").into_path(), Some("a".to_string()));
    assert_eq!(Source::from_text("data:,a").into_path(), None);
    assert_eq!(
        Source::from_location(Location::DataURL("data:,a".into())),
        Source::Url("data:,a".into())
    );
    assert_eq!(
        Source::Path("p".into()).into_location(),
        Location::Path("p".into())
    );
}

#[test]
fn output_arguments() {
    assert_eq!(parse_out("stdout", false), Ok(Output::StdOut));
    assert_eq!(parse_out("./build", false), Ok(Output::Path("./build".into())));
    assert_eq!(
        parse_out("file://out/dir", false),
        Ok(Output::Path("out/dir".into()))
    );
    assert_eq!(parse_out("./build", true), Err("Output must be a directory"));
    assert_eq!(parse_out("http://x", false), Err("Unknown scheme"));
    assert_eq!(parse_log_format("auto"), Ok("auto"));
    assert_eq!(parse_log_format("html"), Ok("html"));
    assert_eq!(parse_log_format("plain"), Ok("plain"));
    assert_eq!(parse_log_format("json"), Err("Unknown progress"));
    assert_eq!(Output::StdOutLog.to_text(), "stdout");
    assert_eq!(Output::Path("x".into()).to_text(), "x");
    assert_eq!(Output::default(), Output::StdOut);
}

#[test]
fn builds_split_at_known_levels_only() {
    let build = |splits: Vec<&str>| Command::Build {
        headers: None,
        splits: splits.into_iter().map(String::from).collect(),
        paths: vec![],
    };
    assert_eq!(build(vec!["ROOT", "DOCUMENT"]).validate(), Ok(()));
    assert_eq!(build(vec![]).validate(), Ok(()));
    assert_eq!(
        build(vec!["ROOT", "PAGE", "LINE"]).validate(),
        Err("PAGE".to_string())
    );
    assert_eq!(Command::Exit.validate(), Ok(()));
}

#[test]
fn config_defaults() {
    let base = Config::default();
    let c = Config { log_format: "html", ..base.clone() }.defaults();
    assert_eq!(c.output, Some(Output::StdOutLog));
    let c = Config { log_format: "html", output: Some(Output::StdOut), ..base.clone() }.defaults();
    assert_eq!(c.output, Some(Output::StdOutLog));
    let c = Config { log_format: "html", output: Some(Output::Path("x".into())), ..base.clone() }
        .defaults();
    assert_eq!(c.output, Some(Output::Path("x".into())));
    let c = Config { log_format: "auto", ..base.clone() }.defaults();
    assert_eq!(c.output, Some(Output::Path("./build".into())));
    let c = Config { log_format: "plain", output: Some(Output::StdOut), ..base }.defaults();
    assert_eq!(c.output, Some(Output::StdOut));
}

#[test]
fn test_index_strips_relative_path_and_duplicates() {
    let mut ctx = State::new();

    index(
        vec![
            "./src/cli/task/tests.rs".to_string(),
            "src/cli/task/tests.rs".to_string(),
        ],
        &mut ctx.locations,
    )
    .unwrap();

    let keys = ctx.locations.key_list();
    let result_keys = keys.iter().collect::<Vec<_>>();

    assert_eq!(result_keys, [&"src/cli/task/tests.rs".to_string()]);
}

#[test]
fn indexing_twice_is_indexing_once() {
    let files = vec![
        "./a.md".to_string(),
        "b/c.md".to_string(),
        "a.md".to_string(),
        "./b/c.md".to_string(),
    ];
    let mut once = State::new();
    index(files.clone(), &mut once.locations).unwrap();
    let mut twice = State::new();
    index(files.clone(), &mut twice.locations).unwrap();
    index(files, &mut twice.locations).unwrap();
    assert_eq!(once.locations.keys, twice.locations.keys);
    assert_eq!(once.locations.vals, twice.locations.vals);
    assert_eq!(once.locations.keys, vec!["a.md".to_string(), "b/c.md".to_string()]);
    assert_eq!(
        once.locations.vals,
        vec![Location::Path("a.md".into()), Location::Path("./b/c.md".into())]
    );
}

#[test]
fn test_gather_adds_operationss_for_command() {
    let paths = vec!["data:,Hello%20World!#foo".to_string()];
    let sources = paths.clone().into_iter().map(Source::Url).collect();
    let op = Operation::Gather {
        cmd: Command::Build { headers: None, paths, splits: vec![] },
        sources,
        splits: Some(vec![]),
    };
    let mut ctx = new_loaded("markdown");
    gather(&op, &vec![vec![]], &mut ctx.operations).unwrap();

    let result_keys = sorted_ids(&ctx);

    assert_eq!(
        result_keys,
        [
            OpId::gather(),
            OpId::load("foo"),
            OpId::parse("foo"),
            OpId::preprocess("foo"),
            OpId::compile("foo"),
            OpId::write("foo"),
            OpId::finish()
        ]
    );
}

#[test]
fn gather_takes_markdown_and_named_files() {
    let op = Operation::Gather {
        cmd: Command::Build {
            headers: Some("DRAFT".into()),
            paths: vec!["docs".into(), "extra.txt".into()],
            splits: vec![],
        },
        sources: vec![Source::Path("docs".into()), Source::Path("extra.txt".into())],
        splits: None,
    };
    let mut graph = State::new().operations;
    let found = vec![
        vec!["./docs/a.md".to_string(), "docs/skip.txt".to_string()],
        vec!["extra.txt".to_string()],
    ];
    assert_eq!(gather(&op, &found, &mut graph), Ok(false));
    assert_eq!(
        graph.get(&OpId::load("docs/a.md")),
        Some(&Operation::Load { id: "docs/a.md".into(), source: Source::Path("./docs/a.md".into()) })
    );
    assert_eq!(
        graph.get(&OpId::preprocess("extra.txt")),
        Some(&Operation::Preprocess { id: "extra.txt".into(), headers: Some("DRAFT".into()) })
    );
    assert_eq!(graph.get(&OpId::load("docs/skip.txt")), None);
    // each chain stands behind the gathering
    assert_eq!(graph.get_dependencies(&OpId::load("docs/a.md")), vec![OpId::gather()]);
    assert_eq!(
        graph.get_dependencies(&OpId::finish()),
        vec![OpId::write("docs/a.md"), OpId::write("extra.txt")]
    );
    let bad = Operation::Gather {
        cmd: Command::Build { headers: None, paths: vec![], splits: vec![] },
        sources: vec![Source::Url("data:,x".into())],
        splits: None,
    };
    assert_eq!(
        gather(&bad, &vec![], &mut graph),
        Err(AppError::BadDataUrlFragment("data:,x".into()))
    );
}

#[test]
fn test_exec_returns_error_on_nonzero() {
    let op = Operation::Exec {
        id: "foo".into(),
        cmd: "test 1 = 0".to_string(),
        input: None,
        artifact: ExecArtifact::Stdout(String::new()),
    };
    let mut ctx = State::new();

    let result = exec(&op, Some(1), vec![], vec![], &mut ctx.asts, &mut ctx.artifacts);

    assert!(result.is_err());
    assert_eq!(
        result,
        Err(AppError::ExecutionExited { program: "test".into(), code: 1 })
    );
    assert_eq!(ctx.artifacts.len(), 0);
    assert_eq!(ctx.asts.len(), 0);
}

#[test]
fn exec_stores_what_the_command_wrote() {
    let op = Operation::Exec {
        id: "date".into(),
        cmd: "date".to_string(),
        input: Some(ExecInput::String("in".into())),
        artifact: ExecArtifact::Stdout("text/plain".into()),
    };
    let mut ctx = State::new();
    assert_eq!(exec_input(&op, &ctx.artifacts), Some("in".to_string()));
    let result = exec(
        &op,
        Some(0),
        b"today\nnow".to_vec(),
        vec![0xff, 0xfe],
        &mut ctx.asts,
        &mut ctx.artifacts,
    );
    assert_eq!(result, Ok(false));
    match ctx.artifacts.get("exec:date") {
        Some(Artifact::Plaintext(m, t)) => {
            assert_eq!(m, "text/plain");
            assert_eq!(t, "today\nnow");
        }
        other => panic!("unexpected artifact {:?}", other),
    }
    let tree = NodeBuilder::root()
        .add_section(vec![Node::new_line("today"), Node::new_line("now")])
        .done();
    assert_eq!(ctx.asts.get("exec:date"), Some(&tree));
    assert_eq!(ctx.asts.get("exec:stdout:date"), Some(&tree));
    assert_eq!(ctx.asts.get("exec:stderr:date"), None);
    assert_eq!(lines_root("today\nnow"), tree);

    // bytes that are no text stay bytes, and an empty input is none
    let op = Operation::Exec {
        id: "img".into(),
        cmd: "plantuml -pipe".to_string(),
        input: Some(ExecInput::URI("graph:dependencies".into())),
        artifact: ExecArtifact::Stdout("image/png".into()),
    };
    assert_eq!(exec_input(&op, &ctx.artifacts), None);
    ctx.insert_artifact(
        "graph:dependencies",
        Artifact::Plaintext("text/plantuml".into(), "@startuml".into()),
    );
    assert_eq!(exec_input(&op, &ctx.artifacts), Some("@startuml".to_string()));
    exec(&op, None, vec![0x89, 0x50, 0xff], vec![], &mut ctx.asts, &mut ctx.artifacts).unwrap();
    match ctx.artifacts.get("exec:img") {
        Some(Artifact::Binary(m, b)) => {
            assert_eq!(m, "image/png");
            assert_eq!(b, &vec![0x89, 0x50, 0xff]);
        }
        other => panic!("unexpected artifact {:?}", other),
    }
    assert_eq!(ctx.asts.get("exec:img"), None);
    let empty = Operation::Exec {
        id: "e".into(),
        cmd: "e".to_string(),
        input: Some(ExecInput::String(String::new())),
        artifact: ExecArtifact::Path("out".into()),
    };
    assert_eq!(exec_input(&empty, &ctx.artifacts), None);
}

fn run_preprocess(ctx: &mut State, op: &Operation, dep: &str) -> Result<(), AppError> {
    let languages = ctx.languages.take().unwrap();
    let deps = preprocess(
        op,
        "markdown",
        dep,
        &mut ctx.asts,
        &mut ctx.artifacts,
        &languages,
        &ctx.locations,
    );
    ctx.languages = Some(languages);
    let deps = deps?;
    schedule_dependencies(op, deps, &Vec::new(), &mut ctx.operations, &ctx.locations)
}

#[test]
fn test_preprocess_adds_src_operations() {
    let node = NodeBuilder::root()
        .children(vec![NodeBuilder::block(">")
            .add_prop(("src".into(), "bar".into()))
            .done()])
        .done();
    let op = Operation::Preprocess { id: "foo".into(), headers: None };
    let dep = op.uri();
    let mut ctx = new_loaded("markdown");
    ctx.insert_location("bar", Location::Path("file.txt".into()));
    ctx.insert_artifact(&dep, Artifact::Ast(node));

    run_preprocess(&mut ctx, &op, &dep).unwrap();

    let result_keys = sorted_ids(&ctx);

    assert_eq!(
        result_keys,
        [
            OpId::load("bar"),
            OpId::parse("bar"),
            OpId::preprocess("bar"),
            OpId::preprocess("foo"),
        ]
    );

    let mut result_ops: Vec<Operation> =
        ctx.operations.iter().into_iter().map(|(_, o, _)| o).collect();
    result_ops.sort();

    assert_eq!(
        result_ops,
        [
            Operation::Load {
                id: "bar".into(),
                source: Source::from_text("file.txt")
            },
            Operation::Parse { id: "bar".into() },
            Operation::Preprocess { id: "bar".into(), headers: None },
            Operation::Preprocess { id: "foo".into(), headers: None }
        ]
    );
}

#[test]
fn test_preprocess_adds_ref_operations() {
    let node = NodeBuilder::root()
        .children(vec![NodeBuilder::block(">")
            .add_prop(("ref".into(), "bar".into()))
            .done()])
        .done();
    let op = Operation::Preprocess { id: "foo".into(), headers: None };
    let dep = op.uri();
    let mut ctx = new_loaded("markdown");
    ctx.insert_location("bar", Location::Path("file.txt".into()));
    ctx.insert_artifact(&dep, Artifact::Ast(node));

    run_preprocess(&mut ctx, &op, &dep).unwrap();

    let result_keys = sorted_ids(&ctx);

    assert_eq!(
        result_keys,
        [
            OpId::load("bar"),
            OpId::parse("bar"),
            OpId::preprocess("bar"),
            OpId::compile("bar"),
            OpId::write("bar"),
            OpId::finish()
        ]
    );
}

#[test]
fn preprocess_stores_pointers_and_adds_headers() {
    let node = NodeBuilder::root()
        .headers(Some(vec!["A".to_string()]))
        .children(vec![NodeBuilder::block(">")
            .add_prop(("id".into(), "part".into()))
            .done()])
        .done();
    let op = Operation::Preprocess { id: "doc".into(), headers: Some("B  A C".into()) };
    let mut ctx = new_loaded("markdown");
    ctx.insert_artifact("ast:doc", Artifact::Ast(node));
    run_preprocess(&mut ctx, &op, "ast:doc").unwrap();
    let root = ctx.asts.get("parse:doc").unwrap();
    assert_eq!(
        root.headers,
        Some(vec!["A".to_string(), "B".to_string(), "C".to_string()])
    );
    let slot = ctx.asts.slot_of("parse:doc").unwrap();
    assert!(matches!(ctx.artifacts.get("parse:doc"), Some(Artifact::AstPointer(s)) if *s == slot));
    let part = ctx.asts.slot_of("parse:doc#part").unwrap();
    assert!(
        matches!(ctx.artifacts.get("parse:doc#part"), Some(Artifact::AstPointer(s)) if *s == part)
    );
    // the source tree is left as it was
    assert!(matches!(ctx.artifacts.get("ast:doc"), Some(Artifact::Ast(n)) if n.children.as_ref().unwrap()[0].pointer.is_none()));
    // errors
    let languages = ctx.languages.take().unwrap();
    assert_eq!(
        preprocess(&op, "html", "ast:doc", &mut ctx.asts, &mut ctx.artifacts, &languages, &ctx.locations),
        Err(AppError::UnknownLanguage("html".into()))
    );
    assert_eq!(
        preprocess(&op, "markdown", "ast:none", &mut ctx.asts, &mut ctx.artifacts, &languages, &ctx.locations),
        Err(AppError::FileNotFound("ast:none".into()))
    );
}

#[test]
fn links_are_scheduled_by_kind_and_scheme() {
    let op = Operation::Preprocess { id: "dir/doc.md".into(), headers: None };
    let mut ctx = State::new();
    ctx.insert_location("a.md", Location::Path("a.md".into()));
    ctx.insert_op(op.clone());
    let deps = vec![
        Dependency::URI("src", "exec:run.sh".to_string()),
        Dependency::URI("src", "exec:dir/doc.md#code".to_string()),
        Dependency::URI("src", "file:a.md".to_string()),
        Dependency::URI("src", "ast:a.md".to_string()),
        Dependency::URI("src", "copy:a.md".to_string()),
        Dependency::URI("ref", "exec:date".to_string()),
        Dependency::Exec {
            id: "date".into(),
            cmd: "date".into(),
            input: Some("in".into()),
            artifact: ExecArtifact::Stdout("text/plain".into()),
        },
    ];
    assert_eq!(
        exec_paths(&deps),
        vec!["run.sh".to_string(), "dir/doc.md#code".to_string()]
    );
    let existing = vec!["run.sh".to_string()];
    schedule_dependencies(&op, deps, &existing, &mut ctx.operations, &ctx.locations).unwrap();
    let g = &ctx.operations;
    assert_eq!(
        g.get(&OpId::exec("run.sh")),
        Some(&Operation::Exec {
            id: "run.sh".into(),
            cmd: "./run.sh".into(),
            input: None,
            artifact: ExecArtifact::Stdout("text/plain".into()),
        })
    );
    assert_eq!(
        g.get(&OpId(murkdown::cli::op::Op::Tangle, "dir/doc.md#code".into())),
        Some(&Operation::Tangle { id: "dir/doc.md#code".into(), target: "dir/code.tmp".into() })
    );
    assert_eq!(
        g.get(&OpId(murkdown::cli::op::Op::CompilePlaintext, "dir/doc.md#code".into())),
        Some(&Operation::CompilePlaintext {
            id: "dir/doc.md#code".into(),
            source_uri: "parse:dir/doc.md#code".into()
        })
    );
    assert_eq!(
        g.get_dependencies(&OpId::preprocess("dir/doc.md")),
        vec![
            OpId::exec("run.sh"),
            OpId::exec("dir/doc.md#code"),
            OpId::load("a.md"),
            OpId::parse("a.md"),
        ]
    );
    assert!(g.get(&OpId::copy("a.md")).is_some());
    // the command replaced nothing of the written date, and got its input
    assert_eq!(
        g.get(&OpId::exec("date")),
        Some(&Operation::Exec {
            id: "date".into(),
            cmd: "date".into(),
            input: Some(ExecInput::String("in".into())),
            artifact: ExecArtifact::Stdout("text/plain".into()),
        })
    );
    assert_eq!(g.get_dependencies(&OpId::write("date")), vec![OpId::exec("date")]);
    // a link to what is scheduled already adds nothing
    let before = ctx.operations.len();
    let again = vec![
        Dependency::URI("src", "file:a.md".to_string()),
        Dependency::URI("src", "file:a.md#part".to_string()),
        Dependency::URI("ref", "exec:date".to_string()),
    ];
    schedule_dependencies(&op, again, &existing, &mut ctx.operations, &ctx.locations).unwrap();
    assert_eq!(ctx.operations.len(), before);
    // errors
    let mut graph = State::new().operations;
    let one = |kind: &'static str, uri: &str| vec![Dependency::URI(kind, uri.to_string())];
    assert_eq!(
        schedule_dependencies(&op, one("src", "exec:gone"), &vec![], &mut graph, &ctx.locations),
        Err(AppError::FileNotFound("gone".into()))
    );
    assert_eq!(
        schedule_dependencies(&op, one("src", "parse:gone.md"), &vec![], &mut graph, &ctx.locations),
        Err(AppError::FileNotFound("gone.md".into()))
    );
    assert_eq!(
        schedule_dependencies(&op, one("src", "zip:a.md"), &vec![], &mut graph, &ctx.locations),
        Err(AppError::UnknownSchema("zip".into()))
    );
    assert_eq!(
        schedule_dependencies(&op, one("ref", "zip:a.md"), &vec![], &mut graph, &ctx.locations),
        Err(AppError::UnknownSchema("zip".into()))
    );
    assert_eq!(
        schedule_dependencies(&op, one("ref", "nocolon"), &vec![], &mut graph, &ctx.locations),
        Err(AppError::BadUri("nocolon".into()))
    );
    assert_eq!(join_path(".", "x.tmp"), "./x.tmp");
    assert_eq!(join_path("a/", "b"), "a/b");
    assert_eq!(join_path("", "b"), "b");
    assert_eq!(join_path("a", "/b"), "/b");
}

#[test]
fn tests_test_graph() {
    let node = NodeBuilder::root()
        .children(vec![NodeBuilder::block(">")
            .add_prop(("ref".into(), "bar".into()))
            .done()])
        .done();
    let op = Operation::Graph { graph_type: GraphType::Dependencies };
    let mut ctx = State::new();
    ctx.insert_artifact(&op.uri(), Artifact::Ast(node));

    graph(&op, &ctx.operations, &mut ctx.artifacts).unwrap();

    let artifact = ctx.artifacts.get("graph:dependencies").unwrap();
    let Artifact::Plaintext(media_type, content) = artifact else {
        unreachable!()
    };

    assert_eq!(media_type, "text/plantuml");
    assert_eq!(
        content,
        "@startuml\nskinparam defaultTextAlignment center\n'nodes\n'dependencies\n@enduml"
    );
}

#[test]
fn graph_artifact_of_a_build() {
    let mut ctx = State::new();
    ctx.insert_op_chain(vec![
        Operation::Load { id: "foo".into(), source: Source::empty() },
        Operation::Finish,
        Operation::Graph { graph_type: GraphType::Dependencies },
    ]);
    let op = Operation::Graph { graph_type: GraphType::Dependencies };
    graph(&op, &ctx.operations, &mut ctx.artifacts).unwrap();
    let Some(Artifact::Plaintext(_, first)) = ctx.artifacts.get("graph:dependencies") else {
        unreachable!()
    };
    let first = first.clone();
    assert_eq!(
        first,
        "@startuml\nskinparam defaultTextAlignment center\n'nodes\n\
         card \"foo\\n(file)\" as ZmlsZTpmb28\n\
         card \"(finish)\" as ZmluaXNoOg\n\
         'dependencies\n\
         ZmlsZTpmb28 --> ZmluaXNoOg\n\
         @enduml"
    );
    assert!(first.starts_with("@startuml\nskinparam defaultTextAlignment center\n'nodes\n"));
    assert!(first.ends_with("@enduml"));
    graph(&op, &ctx.operations, &mut ctx.artifacts).unwrap();
    let Some(Artifact::Plaintext(_, second)) = ctx.artifacts.get("graph:dependencies") else {
        unreachable!()
    };
    assert_eq!(&first, second);
}

#[test]
fn load_takes_up_files_and_data_urls() {
    let mut ctx = State::new();
    let op = Operation::Load { id: "a.md".into(), source: Source::Path("a.md".into()) };
    assert_eq!(
        load(&op, Some(Loaded::Text("x\ny".into())), &mut ctx.asts, &mut ctx.artifacts),
        Ok(false)
    );
    assert!(matches!(
        ctx.artifacts.get("file:a.md"),
        Some(Artifact::Plaintext(m, t)) if m == "text/plain" && t == "x\ny"
    ));
    assert_eq!(ctx.asts.get("file:a.md"), Some(&lines_root("x\ny")));
    assert_eq!(parse_input("file:a.md", &ctx.artifacts), Some("x\ny".to_string()));
    assert_eq!(parse_input("file:b.md", &ctx.artifacts), None);
    let op = Operation::Load { id: "b.bin".into(), source: Source::Path("b.bin".into()) };
    load(&op, Some(Loaded::Bytes(vec![1, 2])), &mut ctx.asts, &mut ctx.artifacts).unwrap();
    assert!(matches!(
        ctx.artifacts.get("file:b.bin"),
        Some(Artifact::Binary(m, b)) if m == "application/octet-stream" && b == &vec![1, 2]
    ));
    assert_eq!(ctx.asts.get("file:b.bin"), None);
    assert!(matches!(
        load(&op, None, &mut ctx.asts, &mut ctx.artifacts),
        Err(AppError::ReadError { path, .. }) if path == "b.bin"
    ));
    let op = Operation::Load {
        id: "foo".into(),
        source: Source::Url("data:,Hello%20World!#foo".into()),
    };
    load(&op, None, &mut ctx.asts, &mut ctx.artifacts).unwrap();
    assert!(matches!(
        ctx.artifacts.get("file:foo"),
        Some(Artifact::Plaintext(m, t)) if m.starts_with("text/plain") && t == "Hello World!"
    ));
    let op = Operation::Load {
        id: "png".into(),
        source: Source::Url("data:image/png;base64,iVBORw==#png".into()),
    };
    load(&op, None, &mut ctx.asts, &mut ctx.artifacts).unwrap();
    assert!(matches!(
        ctx.artifacts.get("file:png"),
        Some(Artifact::Binary(m, b)) if m == "image/png" && b == &vec![0x89, 0x50, 0x4e, 0x47]
    ));
    let op = Operation::Load { id: "bad".into(), source: Source::Url("data:text/plain,%FF#x".into()) };
    assert_eq!(
        load(&op, None, &mut ctx.asts, &mut ctx.artifacts),
        Err(AppError::BadUrl("data:text/plain,%FF#x".into()))
    );
}

#[test]
fn parse_stores_the_tree_or_hands_back_the_error() {
    let mut ctx = State::new();
    let op = Operation::Parse { id: "a.md".into() };
    let tree = lines_root("x");
    assert_eq!(parse(&op, Ok(tree.clone()), &mut ctx.artifacts), Ok(false));
    assert!(matches!(ctx.artifacts.get("ast:a.md"), Some(Artifact::Ast(n)) if *n == tree));
    assert_eq!(
        parse(&op, Err(LibError::ParseError("line 3".into())), &mut ctx.artifacts),
        Err(AppError::Lib(LibError::ParseError("a.md: line 3".into())))
    );
    assert_eq!(
        parse(&op, Err(LibError::MissingRoot), &mut ctx.artifacts),
        Err(AppError::Lib(LibError::MissingRoot))
    );
}

#[test]
fn compile_stores_text_under_the_media_type_of_the_language() {
    let mut ctx = new_loaded("markdown");
    let languages = ctx.languages.take().unwrap();
    let tree = NodeBuilder::root()
        .add_section(vec![NodeBuilder::block(">")
            .add_section(vec![Node::new_line("foo")])
            .done()])
        .done();
    ctx.insert_artifact("ast:doc", Artifact::Ast(tree.clone()));
    let op = Operation::Compile { id: "doc".into() };
    assert_eq!(
        compile(&op, "markdown", "ast:doc", &mut ctx.asts, &mut ctx.artifacts, &languages),
        Ok(false)
    );
    assert!(matches!(
        ctx.artifacts.get("compile:doc"),
        Some(Artifact::Plaintext(m, t)) if m == "text/markdown" && t == "> foo\n"
    ));
    // through a pointer, the node is compiled in its slot
    let slot = ctx.asts.insert("parse:doc".into(), tree.clone());
    ctx.insert_artifact("parse:doc", Artifact::AstPointer(slot));
    let op = Operation::CompilePlaintext { id: "doc#x".into(), source_uri: "parse:doc".into() };
    assert_eq!(
        compile_plaintext(&op, "parse:doc", &mut ctx.asts, &mut ctx.artifacts, &languages),
        Ok(false)
    );
    assert!(matches!(
        ctx.artifacts.get("compileplain:doc#x"),
        Some(Artifact::Plaintext(m, t)) if m == "text/plain" && t == "foo\n"
    ));
    assert_eq!(ctx.asts.get("parse:doc"), Some(&tree));
    assert_eq!(
        compile(&op, "html", "ast:doc", &mut ctx.asts, &mut ctx.artifacts, &languages),
        Err(AppError::UnknownLanguage("html".into()))
    );
    assert_eq!(
        compile(&op, "markdown", "ast:none", &mut ctx.asts, &mut ctx.artifacts, &languages),
        Err(AppError::FileNotFound("ast:none".into()))
    );
    ctx.insert_artifact("dead", Artifact::AstPointer(99));
    assert_eq!(
        compile(&op, "markdown", "dead", &mut ctx.asts, &mut ctx.artifacts, &languages),
        Err(AppError::Lib(LibError::DeadPointer(99)))
    );
}

#[test]
fn write_copy_and_tangle_plans() {
    let mut ctx = State::new();
    ctx.insert_artifact("compile:a.md", Artifact::Plaintext("text/html".into(), "<p>é</p>".into()));
    ctx.insert_artifact("exec:g.png", Artifact::Binary("image/png".into(), vec![1, 2, 3]));
    ctx.insert_artifact("compile:odd", Artifact::Plaintext("x-no/such-type".into(), "t".into()));
    let op = Operation::Write { id: "a.md".into() };
    assert_eq!(
        murkdown::cli::task::write(&op, "compile:a.md", &ctx.artifacts, &Output::StdOut),
        Some(WritePlan::StdOut("<p>é</p>".into()))
    );
    assert_eq!(
        murkdown::cli::task::write(&op, "compile:a.md", &ctx.artifacts, &Output::StdOutLog),
        Some(WritePlan::Log("a.md".into(), "<p>é</p>".into()))
    );
    assert_eq!(
        murkdown::cli::task::write(&op, "compile:a.md", &ctx.artifacts, &Output::Path("./build".into())),
        Some(WritePlan::File("./build/a.html".into(), "<p>é</p>".as_bytes().to_vec()))
    );
    assert_eq!(
        murkdown::cli::task::write(&op, "compile:odd", &ctx.artifacts, &Output::Path("out/".into())),
        Some(WritePlan::File("out/a.md".into(), b"t".to_vec()))
    );
    let png = Operation::Write { id: "dependencies_graph.png".into() };
    assert_eq!(
        murkdown::cli::task::write(&png, "exec:g.png", &ctx.artifacts, &Output::Path("build".into())),
        Some(WritePlan::File("build/dependencies_graph.png".into(), vec![1, 2, 3]))
    );
    assert_eq!(
        murkdown::cli::task::write(&png, "exec:g.png", &ctx.artifacts, &Output::StdOut),
        Some(WritePlan::Nothing)
    );
    assert_eq!(murkdown::cli::task::write(&op, "missing", &ctx.artifacts, &Output::StdOut), None);
    assert_eq!(set_extension("a/b.c/file", "txt"), "a/b.c/file.txt");
    assert_eq!(set_extension("a/.hidden", "txt"), "a/.hidden.txt");
    assert_eq!(set_extension("x.tar.gz", "zip"), "x.tar.zip");

    let cp = Operation::Copy { id: "img/a.png".into(), source: Source::Path("src/img/a.png".into()) };
    assert_eq!(
        copy(&cp, &Output::Path("build".into())),
        Some(("src/img/a.png".to_string(), "build/img/a.png".to_string()))
    );
    assert_eq!(copy(&cp, &Output::Path("src".into())), None);
    assert_eq!(copy(&cp, &Output::StdOut), None);

    let t = Operation::Tangle { id: "x".into(), target: "./x.tmp".into() };
    assert_eq!(
        tangle(&t, "compile:odd", &ctx.artifacts),
        Some(("./x.tmp".to_string(), "t".to_string()))
    );
    assert_eq!(tangle(&t, "exec:g.png", &ctx.artifacts), None);
    assert_eq!(finish(&Operation::Finish), Ok(true));
}

#[test]
fn events_change_the_state() {
    let mut state = State::new();
    state.insert_location("known", Location::Path("./real/known.md".into()));
    let build = Command::Build {
        headers: None,
        splits: vec!["ROOT".into()],
        paths: vec!["docs/a.md".into(), "known".into(), "data:,x#f".into()],
    };
    let dirs = process_event(Event::Command(Ok(build.clone())), &mut state).unwrap();
    assert_eq!(dirs, Some(vec!["docs".to_string(), "./real".to_string()]));
    assert_eq!(
        state.operations.get(&OpId::gather()),
        Some(&Operation::Gather {
            cmd: build,
            sources: vec![
                Source::Path("docs/a.md".into()),
                Source::Path("./real/known.md".into()),
                Source::Url("data:,x#f".into()),
            ],
            splits: Some(vec!["ROOT".into()]),
        })
    );
    assert_eq!(state.operations.get_dependencies(&OpId::finish()), vec![OpId::gather()]);

    let mut state = State::new();
    let graph = Command::Graph {
        headers: None,
        graph_type: GraphType::Dependencies,
        paths: vec![".".into()],
    };
    let dirs = process_event(Event::Command(Ok(graph)), &mut state).unwrap();
    assert_eq!(dirs, Some(vec![".".to_string()]));
    assert_eq!(state.operations.len(), 5);
    assert_eq!(
        state.operations.get(&OpId::exec("dependencies_graph.png")),
        Some(&Operation::Exec {
            id: "dependencies_graph.png".into(),
            cmd: "plantuml -pipe -tpng".into(),
            input: Some(ExecInput::URI("graph:dependencies".into())),
            artifact: ExecArtifact::Stdout("image/png".into()),
        })
    );
    assert_eq!(
        state.operations.get_dependencies(&OpId::write("dependencies_graph.png")),
        vec![OpId::exec("dependencies_graph.png")]
    );

    let mut state = State::new();
    let index = Command::Index { paths: vec!["a.md".into(), "data:,x#frag".into(), "a.md".into()] };
    assert_eq!(process_event(Event::Command(Ok(index)), &mut state), Ok(None));
    assert_eq!(state.locations.keys, vec!["a.md".to_string(), "frag".to_string()]);
    assert_eq!(
        state.locations.vals,
        vec![Location::Path("a.md".into()), Location::DataURL("data:,x#frag".into())]
    );
    let bad = Command::Index { paths: vec!["data:,nofragment".into()] };
    assert_eq!(
        process_event(Event::Command(Ok(bad)), &mut state),
        Err(AppError::BadDataUrlFragment("data:,nofragment".into()))
    );
    assert_eq!(
        process_event(Event::Command(Ok(Command::Build { headers: None, splits: vec![], paths: vec!["/".into()] })), &mut state),
        Err(AppError::BadPath("/".into()))
    );

    assert!(!state.should_exit);
    assert_eq!(process_event(Event::Command(Ok(Command::Exit)), &mut state), Ok(None));
    assert!(state.should_exit);
    assert_eq!(process_event(Event::Command(Err("no such command".into())), &mut state), Ok(None));
    assert_eq!(process_event(Event::CommandOk, &mut state), Ok(None));
    assert_eq!(process_event(Event::TaskOk, &mut state), Ok(None));
    assert_eq!(
        process_event(Event::TaskError(AppError::SendError), &mut state),
        Err(AppError::SendError)
    );
    assert_eq!(process_result(Ok(true), &mut state), Ok(None));
    assert_eq!(process_result(Ok(false), &mut state), Ok(None));
    assert_eq!(
        process_result(Err(AppError::FileNotFound("x".into())), &mut state),
        Err(AppError::FileNotFound("x".into()))
    );
}

#[test]
fn errors_are_told_the_path() {
    let gone: Result<u8, std::io::Error> =
        Err(std::io::Error::new(std::io::ErrorKind::NotFound, "gone"));
    assert_eq!(
        gone.with_ctx("a/b.md"),
        Err(AppError::ReadError { source: "gone".into(), path: "a/b.md".into() })
    );
    let fine: Result<u8, std::io::Error> = Ok(7);
    assert_eq!(fine.with_ctx("a/b.md"), Ok(7));
    let bad: Result<u8, LibError> = Err(LibError::ParseError("line 2".into()));
    assert_eq!(
        bad.with_path("doc.md"),
        Err(LibError::ParseError("doc.md: line 2".into()))
    );
    let other: Result<u8, LibError> = Err(LibError::MissingRoot);
    assert_eq!(other.with_path("doc.md"), Err(LibError::MissingRoot));
    let fine: Result<u8, LibError> = Ok(1);
    assert_eq!(fine.with_path("doc.md"), Ok(1));
}

#[test]
fn errors_end_a_run_unless_it_is_interactive() {
    assert_eq!(process_error(AppError::SendError, true), Ok(()));
    assert_eq!(process_error(AppError::SendError, false), Err(AppError::SendError));
    assert_eq!(process_error(AppError::Exit(3), true), Err(AppError::Exit(3)));
    assert_eq!(process_error(AppError::Exit(0), false), Err(AppError::Exit(0)));
    let mut state = State::new();
    assert!(is_done(0, false, &state));
    assert!(!is_done(1, false, &state));
    assert!(!is_done(0, true, &state));
    state.should_exit = true;
    assert!(is_done(0, true, &state));
}

#[test]
fn the_scheduler_hands_out_one_level_at_a_time() {
    let mut state = State::new();
    state.insert_op_chain(vec![
        Operation::Load { id: "b".into(), source: Source::empty() },
        Operation::Parse { id: "b".into() },
        Operation::Finish,
    ]);
    state.insert_op_chain(vec![
        Operation::Load { id: "a".into(), source: Source::empty() },
        Operation::Parse { id: "a".into() },
        Operation::Finish,
    ]);
    let ids = |tasks: &Vec<murkdown::cli::state::Task>| -> Vec<OpId> {
        tasks.iter().map(|t| t.op.op_id()).collect()
    };
    let first = process_graph(&mut state);
    assert_eq!(ids(&first), vec![OpId::load("a"), OpId::load("b")]);
    assert_eq!(first[0].dep, None);
    assert!(state.is_op_processed(&OpId::load("a")));
    assert!(!state.is_op_processed(&OpId::parse("a")));
    let second = process_graph(&mut state);
    assert_eq!(ids(&second), vec![OpId::parse("a"), OpId::parse("b")]);
    assert_eq!(second[0].dep, Some("file:a".to_string()));
    // something new in an early level is handed out alone
    state.insert_op(Operation::Load { id: "c".into(), source: Source::empty() });
    let third = process_graph(&mut state);
    assert_eq!(ids(&third), vec![OpId::load("c")]);
    let fourth = process_graph(&mut state);
    assert_eq!(ids(&fourth), vec![OpId::finish()]);
    assert_eq!(fourth[0].dep, Some("ast:b".to_string()));
    assert!(process_graph(&mut state).is_empty());
    state.mark_op_processed(OpId::finish());
    assert_eq!(state.operations_processed.len(), 6);
    state.clear();
    assert!(process_graph(&mut state).is_empty());
    assert_eq!(state.operations.len(), 0);
}

#[test]
fn languages_are_loaded_once() {
    let builtin = vec![("markdown".to_string(), MARKDOWN.to_string())];
    let mut state = State::new();
    assert!(matches!(
        state.load_languages("custom", &builtin, None),
        Err(AppError::ReadError { path, .. }) if path == "custom.lang"
    ));
    assert!(state.languages.is_none());
    assert_eq!(state.load_languages("custom", &builtin, Some(PLAINTEXT)), Ok(()));
    let languages = state.languages.as_ref().unwrap();
    assert_eq!(languages.get("custom").unwrap().name, "plaintext");
    assert_eq!(languages.get("markdown").unwrap().media_type, "text/markdown");
    assert_eq!(state.load_languages("other", &Vec::new(), None), Ok(()));
    assert!(state.languages.as_ref().unwrap().get("other").is_none());
    let mut state = State::new();
    assert_eq!(
        state.load_languages("x", &vec![("bad".to_string(), "nonsense".to_string())], None),
        Err(AppError::Lib(LibError::ParseRuleError("nonsense".into())))
    );
}

#[test]
fn a_command_leaves_what_was_built_and_handed_out() {
    let mut state = new_loaded("markdown");
    state.insert_artifact("load:a.md", Artifact::Plaintext("text/plain".into(), "x".into()));
    let slot = state.asts.insert("parse:a".into(), Node::new_line("x"));
    state.mark_op_processed(OpId::load("a.md"));
    let build = Command::Build {
        headers: None,
        splits: vec![],
        paths: vec!["docs/a.md".into()],
    };
    assert_eq!(
        process_event(Event::Command(Ok(build)), &mut state),
        Ok(Some(vec!["docs".to_string()]))
    );
    assert_eq!(state.operations_processed, vec![OpId::load("a.md")]);
    assert_eq!(state.artifacts.len(), 1);
    assert!(matches!(
        state.artifacts.get("load:a.md"),
        Some(Artifact::Plaintext(_, t)) if t == "x"
    ));
    assert_eq!(state.asts.slot_of("parse:a"), Some(slot));
    assert_eq!(state.asts.get("parse:a"), Some(&Node::new_line("x")));
    assert!(state.languages.is_some());
    assert!(state.locations.keys.is_empty());

    // a pass of the scheduler marks what it hands out and touches nothing else
    let tasks = process_graph(&mut state);
    assert_eq!(tasks.len(), 1);
    assert_eq!(state.operations_processed, vec![OpId::load("a.md"), OpId::gather()]);
    assert_eq!(state.artifacts.len(), 1);
    assert_eq!(state.asts.get("parse:a"), Some(&Node::new_line("x")));
    assert!(state.languages.is_some());

    // an index that fails keeps what was indexed before the path that failed
    let bad = Command::Index {
        paths: vec!["a.md".into(), "data:,nofragment".into(), "b.md".into()],
    };
    assert_eq!(
        process_event(Event::Command(Ok(bad)), &mut state),
        Err(AppError::BadDataUrlFragment("data:,nofragment".into()))
    );
    assert_eq!(state.locations.keys, vec!["a.md".to_string()]);
    assert_eq!(state.operations.len(), 2);
    assert_eq!(state.artifacts.len(), 1);

    // a command that fails leaves the state as it was
    let count = state.operations.len();
    assert_eq!(
        process_event(
            Event::Command(Ok(Command::Build {
                headers: None,
                splits: vec![],
                paths: vec!["/".into()]
            })),
            &mut state
        ),
        Err(AppError::BadPath("/".into()))
    );
    assert_eq!(state.operations.len(), count);
    assert_eq!(state.operations_processed.len(), 2);

    // forgetting the operations keeps what was built, read and indexed
    state.clear();
    assert_eq!(state.operations.len(), 0);
    assert!(state.operations_processed.is_empty());
    assert_eq!(state.artifacts.len(), 1);
    assert_eq!(state.asts.get("parse:a"), Some(&Node::new_line("x")));
    assert_eq!(state.locations.keys, vec!["a.md".to_string()]);
    assert!(state.languages.is_some());
}

#[test]
fn a_failed_compile_stores_nothing() {
    let mut ctx = new_loaded("markdown");
    let mut languages = ctx.languages.take().unwrap();
    let broken = murkdown::compiler::lang::Lang::new(
        "RULES FOR broken PRODUCE text/plain\n\
         COMPILE RULES:\n\
         LINE$\n\
         \x20 FROB\n",
    )
    .unwrap();
    languages.insert("broken".to_string(), broken);
    let tree = NodeBuilder::root().add_section(vec![Node::new_line("foo")]).done();
    let slot = ctx.asts.insert("parse:doc".into(), tree.clone());
    ctx.insert_artifact("parse:doc", Artifact::AstPointer(slot));
    let op = Operation::Compile { id: "doc".into() };
    assert_eq!(
        compile(&op, "broken", "parse:doc", &mut ctx.asts, &mut ctx.artifacts, &languages),
        Err(AppError::Lib(LibError::InvalidRule("FROB".into())))
    );
    assert_eq!(ctx.artifacts.len(), 1);
    assert!(ctx.artifacts.get("compile:doc").is_none());
    assert_eq!(ctx.asts.get("parse:doc"), Some(&tree));
}

#[test]
fn scheduling_stops_at_the_link_that_fails() {
    let mut ctx = State::new();
    let op = Operation::Preprocess { id: "doc".into(), headers: None };
    ctx.insert_op(op.clone());
    ctx.insert_location("a.md", Location::Path("a.md".into()));
    let before = ctx.operations.len();
    let deps = vec![
        Dependency::URI("src", "file:a.md".into()),
        Dependency::URI("src", "file:missing.md".into()),
        Dependency::Exec {
            cmd: "date".into(),
            id: "date".into(),
            input: None,
            artifact: ExecArtifact::Stdout("text/plain".into()),
        },
    ];
    let r = schedule_dependencies(&op, deps, &vec![], &mut ctx.operations, &ctx.locations);
    assert_eq!(r, Err(AppError::FileNotFound("missing.md".into())));
    // the link before it is scheduled, and no command is
    assert_eq!(ctx.operations.len(), before + 1);
    assert!(ctx.operations.get(&OpId::load("a.md")).is_some());
    assert_eq!(ctx.operations.get(&OpId::exec("date")), None);
}

#[test]
fn a_graph_is_drawn_the_same_however_it_was_filled() {
    let load = Operation::Load { id: "a.md".into(), source: Source::Path("a.md".into()) };
    let parse_op = Operation::Parse { id: "a.md".into() };
    let mut first = murkdown::cli::graph::OpGraph::new();
    first.insert_node(load.clone());
    first.insert_node(parse_op.clone());
    first.insert_node(Operation::Finish);
    first.add_dependency(OpId::parse("a.md"), OpId::load("a.md"));
    first.add_dependency(OpId::finish(), OpId::parse("a.md"));
    let mut second = murkdown::cli::graph::OpGraph::new();
    second.insert_node(Operation::Finish);
    second.add_dependency(OpId::finish(), OpId::parse("a.md"));
    second.insert_node(parse_op);
    second.add_dependency(OpId::parse("a.md"), OpId::load("a.md"));
    second.insert_node(load);
    let a = murkdown::cli::task::draw(&first);
    let b = murkdown::cli::task::draw(&second);
    assert_eq!(a, b);
    let mut ids = vec![OpId::finish(), OpId::parse("a.md"), OpId::load("a.md")];
    ids.sort();
    let cards: Vec<usize> = ids
        .iter()
        .map(|id| a.find(&format!(" as {}\n", id.uid())).expect("a card for each operation"))
        .collect();
    assert!(cards.windows(2).all(|w| w[0] < w[1]));
}
