use std::collections::HashMap;

use murkdown::cli::command::Command;
use murkdown::cli::op::{Op, OpId};
use murkdown::cli::schedule::{exec_paths, schedule_dependencies};
use murkdown::cli::state::{process_event, process_graph, Event, State, Task};
use murkdown::cli::task::{
    compile, compile_plaintext, exec, exec_input, finish, gather, index, load, parse,
    parse_input, preprocess, tangle, Loaded, WritePlan,
};
use murkdown::cli::types::{AppError, Output, Source};
use murkdown::cli::utils::split_command;

const MARKDOWN: &str = "RULES FOR markdown PRODUCE text/markdown\n\
     PREPROCESS RULES:\n\
     [...DATE...]$\n\
     \x20 PUSH src \"exec?:date\"\n\
     \x20 EXEC \"date\" TO text/plain AS \"date\"\n\
     COMPILE RULES:\n\
     ^[...]$\n\
     \x20 NOOP\n\
     [SEC...]$\n\
     \x20 NOOP\n\
     [...]$\n\
     \x20 PUSH indent \"\\m \"\n\
     \x20 YIELD\n\
     \x20 POP indent\n\
     LINE$\n\
     \x20 IS UNESCAPED_VALUE\n\
     \x20 WRITEALL indent\n\
     \x20 WRITE \"\\v\\n\"\n";

const PLAINTEXT: &str = "RULES FOR plaintext PRODUCE text/plain\n\
     COMPILE RULES:\n\
     LINE$\n\
     \x20 IS UNESCAPED_VALUE\n\
     \x20 WRITE \"\\v\\n\"\n";

/// A run without a disk: files are texts by path, and commands are
/// answered from a table.
struct World {
    files: HashMap<String, String>,
    commands: HashMap<String, (i32, String)>,
    state: State,
    written: Vec<(String, WritePlan)>,
    tangled: Vec<(String, String)>,
    done: Vec<OpId>,
}

impl World {
    fn new(files: &[(&str, &str)], commands: &[(&str, i32, &str)]) -> World {
        let mut state = State::new();
        let builtin = vec![
            ("markdown".to_string(), MARKDOWN.to_string()),
            ("plaintext".to_string(), PLAINTEXT.to_string()),
        ];
        state.load_languages("markdown", &builtin, None).unwrap();
        World {
            files: files.iter().map(|(p, t)| (p.to_string(), t.to_string())).collect(),
            commands: commands
                .iter()
                .map(|(c, code, out)| (c.to_string(), (*code, out.to_string())))
                .collect(),
            state,
            written: Vec::new(),
            tangled: Vec::new(),
            done: Vec::new(),
        }
    }

    fn walk(&self, path: &str) -> Vec<String> {
        let dir = path.trim_end_matches('/');
        let mut found: Vec<String> = self
            .files
            .keys()
            .filter(|p| *p == path || dir == "." || p.starts_with(&format!("{dir}/")))
            .map(|p| if dir == "." { format!("./{p}") } else { p.clone() })
            .collect();
        found.sort();
        found
    }

    fn read(&self, path: &str) -> Option<String> {
        self.files.get(path.trim_start_matches("./")).cloned()
    }

    fn run(&mut self, task: Task) -> Result<bool, AppError> {
        let Task { op, dep } = task;
        self.done.push(op.op_id());
        let languages = self.state.languages.take().unwrap();
        let state = &mut self.state;
        let result = match op.op() {
            Op::Gather => {
                let murkdown::cli::op::Operation::Gather { sources, .. } = &op else {
                    unreachable!()
                };
                let found: Vec<Vec<String>> = sources
                    .iter()
                    .map(|s| match s {
                        Source::Path(p) => self.files.keys().filter(|f| *f == p).cloned().collect(),
                        Source::Url(_) => Vec::new(),
                    })
                    .collect();
                gather(&op, &found, &mut state.operations)
            }
            Op::Load => {
                let murkdown::cli::op::Operation::Load { source, .. } = &op else {
                    unreachable!()
                };
                let read = match source {
                    Source::Path(p) => self
                        .files
                        .get(p.trim_start_matches("./"))
                        .cloned()
                        .map(Loaded::Text),
                    Source::Url(_) => None,
                };
                load(&op, read, &mut state.asts, &mut state.artifacts)
            }
            Op::Parse => {
                let content = parse_input(&dep.unwrap(), &state.artifacts).unwrap();
                parse(&op, murkdown::parser::parse(&content), &mut state.artifacts)
            }
            Op::Preprocess => {
                let deps = preprocess(
                    &op,
                    "markdown",
                    &dep.unwrap(),
                    &mut state.asts,
                    &mut state.artifacts,
                    &languages,
                    &state.locations,
                );
                match deps {
                    Ok(deps) => {
                        let existing: Vec<String> = exec_paths(&deps)
                            .into_iter()
                            .filter(|p| self.files.contains_key(p))
                            .collect();
                        schedule_dependencies(
                            &op,
                            deps,
                            &existing,
                            &mut state.operations,
                            &state.locations,
                        )
                        .map(|_| false)
                    }
                    Err(e) => Err(e),
                }
            }
            Op::Compile => compile(
                &op,
                "markdown",
                &dep.unwrap(),
                &mut state.asts,
                &mut state.artifacts,
                &languages,
            ),
            Op::CompilePlaintext => {
                let murkdown::cli::op::Operation::CompilePlaintext { source_uri, .. } = &op else {
                    unreachable!()
                };
                compile_plaintext(
                    &op,
                    source_uri,
                    &mut state.asts,
                    &mut state.artifacts,
                    &languages,
                )
            }
            Op::Tangle => {
                let plan = tangle(&op, &dep.unwrap(), &state.artifacts).unwrap();
                self.tangled.push(plan);
                Ok(false)
            }
            Op::Exec => {
                let murkdown::cli::op::Operation::Exec { cmd, .. } = &op else {
                    unreachable!()
                };
                let _input = exec_input(&op, &state.artifacts);
                let (_program, _args) = split_command(cmd);
                let (code, out) = self.commands.get(cmd).cloned().unwrap_or((127, String::new()));
                exec(
                    &op,
                    Some(code),
                    out.into_bytes(),
                    Vec::new(),
                    &mut state.asts,
                    &mut state.artifacts,
                )
            }
            Op::Write => {
                let plan =
                    murkdown::cli::task::write(&op, &dep.unwrap(), &state.artifacts, &Output::StdOut)
                        .unwrap();
                self.written.push((op.uri_path(), plan));
                Ok(false)
            }
            Op::Copy => Ok(false),
            Op::Graph => murkdown::cli::task::graph(&op, &state.operations, &mut state.artifacts),
            Op::Finish => finish(&op),
        };
        self.state.languages = Some(languages);
        result
    }

    /// Runs a command to the end, level by level.
    fn command(&mut self, command: Command) -> Result<(), AppError> {
        if let Some(dirs) = process_event(Event::Command(Ok(command)), &mut self.state)? {
            let files: Vec<String> = dirs.iter().flat_map(|d| self.walk(d)).collect();
            index(files, &mut self.state.locations)?;
        }
        for _ in 0..100 {
            let batch = process_graph(&mut self.state);
            if batch.is_empty() {
                return Ok(());
            }
            for task in batch {
                self.run(task)?;
            }
        }
        panic!("the scheduler does not come to an end");
    }
}

fn build(paths: &[&str]) -> Command {
    Command::Build {
        headers: None,
        splits: vec!["ROOT".into(), "DOCUMENT".into()],
        paths: paths.iter().map(|p| p.to_string()).collect(),
    }
}

#[test]
fn a_document_goes_through_the_pipeline() {
    let mut world = World::new(&[("doc.md", "foo\n> bar\n> > baz\n")], &[]);
    world.command(build(&["doc.md"])).unwrap();
    assert_eq!(
        world.done,
        vec![
            OpId::gather(),
            OpId::load("doc.md"),
            OpId::parse("doc.md"),
            OpId::preprocess("doc.md"),
            OpId::compile("doc.md"),
            OpId::write("doc.md"),
            OpId::finish(),
        ]
    );
    assert_eq!(
        world.written,
        vec![("doc.md".to_string(), WritePlan::StdOut("foo\n> bar\n> > baz\n".to_string()))]
    );
}

#[test]
fn an_included_document_is_built_before_it_is_needed() {
    let mut world = World::new(
        &[
            ("a.md", "title\n> [!QUOTE](src=\"b.md\")\nend\n"),
            ("b.md", "hello\nworld\n"),
        ],
        &[],
    );
    world.command(build(&["a.md"])).unwrap();
    // the include was found while preprocessing, and scheduled before the compiling
    let position = |id: &OpId| world.done.iter().position(|d| d == id).unwrap();
    assert!(position(&OpId::preprocess("a.md")) < position(&OpId::load("b.md")));
    assert!(position(&OpId::preprocess("b.md")) < position(&OpId::compile("a.md")));
    assert_eq!(
        world.written,
        vec![(
            "a.md".to_string(),
            WritePlan::StdOut("title\n> hello\n> world\nend\n".to_string())
        )]
    );
}

#[test]
fn a_part_with_an_id_is_spliced_in_at_an_ellipsis() {
    let mut world = World::new(
        &[(
            "doc.md",
            "> [!PART](id=\"part\")\n> hello\n# [!HOST](src=\"#part\")\n# ...\n# world\n",
        )],
        &[],
    );
    world.command(build(&["doc.md"])).unwrap();
    assert_eq!(
        world.written,
        vec![(
            "doc.md".to_string(),
            WritePlan::StdOut("> hello\n# hello\n# world\n".to_string())
        )]
    );
    assert!(world.state.asts.get("parse:doc.md#part").is_some());
}

#[test]
fn a_dated_block_runs_a_command() {
    let mut world = World::new(&[("doc.md", "> [!DATE]\n")], &[("date", 0, "today\n")]);
    world.command(build(&["doc.md"])).unwrap();
    assert!(world.done.contains(&OpId::exec("date")));
    assert_eq!(
        world.written,
        vec![("doc.md".to_string(), WritePlan::StdOut("> today\n> \n".to_string()))]
    );
    // a command that fails ends the build, and nothing is written
    let mut world = World::new(&[("doc.md", "> [!DATE]\n")], &[("date", 2, "")]);
    assert_eq!(
        world.command(build(&["doc.md"])),
        Err(AppError::ExecutionExited { program: "date".into(), code: 2 })
    );
    assert!(world.written.is_empty());
    assert!(world.state.artifacts.get("exec:date").is_none());
}
