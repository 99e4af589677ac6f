//! Commands and configuration.
use crate::ast::copy_strings;
use crate::cli::types::{Output, OutputV};
use crate::text::{chars_of, copy_str, has_at, occurs_at, starts_with, str_eq, string_of_range};
use vstd::prelude::*;

verus! {

/// The kinds of graph that can be drawn.
#[derive(Debug, Copy, Clone, PartialEq, Eq, PartialOrd, Ord, Structural)]
pub enum GraphType {
    /// Dependency graph
    Dependencies,
}

impl GraphType {
    pub open spec fn text(self) -> Seq<char> {
        "dependencies"@
    }

    /// The name of the graph type.
    pub fn to_text(&self) -> (r: String)
        ensures
            r@ == self.text(),
    {
        copy_str("dependencies")
    }
}

/// What a user can ask for.
#[derive(Debug, Clone, PartialEq, Eq, PartialOrd, Ord)]
pub enum Command {
    /// Build sources and draw a graph of the operations.
    Graph { headers: Option<String>, graph_type: GraphType, paths: Vec<String> },
    /// Index content into memory.
    Index { paths: Vec<String> },
    /// Build sources.
    Build { headers: Option<String>, splits: Vec<String>, paths: Vec<String> },
    /// Leave interactive mode.
    Exit,
}

/// Model of a [`Command`].
pub enum CommandV {
    Graph { headers: Option<Seq<char>>, graph_type: GraphType, paths: Seq<Seq<char>> },
    Index { paths: Seq<Seq<char>> },
    Build { headers: Option<Seq<char>>, splits: Seq<Seq<char>>, paths: Seq<Seq<char>> },
    Exit,
}

impl View for Command {
    type V = CommandV;

    open spec fn view(&self) -> CommandV {
        match self {
            Command::Graph { headers, graph_type, paths } => CommandV::Graph {
                headers: headers.deep_view(),
                graph_type: *graph_type,
                paths: paths.deep_view(),
            },
            Command::Index { paths } => CommandV::Index { paths: paths.deep_view() },
            Command::Build { headers, splits, paths } => CommandV::Build {
                headers: headers.deep_view(),
                splits: splits.deep_view(),
                paths: paths.deep_view(),
            },
            Command::Exit => CommandV::Exit,
        }
    }
}

/// The first of the levels `splits[i..]` that is no level to split at.
pub open spec fn unknown_split(splits: Seq<Seq<char>>, i: int) -> Option<Seq<char>>
    decreases splits.len() - i,
{
    if i < 0 || i >= splits.len() {
        None
    } else if splits[i] == "ROOT"@ || splits[i] == "DOCUMENT"@ {
        unknown_split(splits, i + 1)
    } else {
        Some(splits[i])
    }
}

/// What is wrong with a command: a command to build may split at the
/// levels `ROOT` and `DOCUMENT` only.
pub open spec fn command_fault(cmd: CommandV) -> Option<Seq<char>> {
    match cmd {
        CommandV::Build { headers, splits, paths } => unknown_split(splits, 0),
        _ => None,
    }
}

impl Command {
    /// Checks a command: hands back the level that a command to build
    /// cannot split at, if there is one.
    pub fn validate(&self) -> (r: Result<(), String>)
        ensures
            match r {
                Ok(_) => command_fault(self@) is None,
                Err(level) => command_fault(self@) == Some(level@),
            },
    {
        match self {
            Command::Build { splits, .. } => {
                let mut i: usize = 0;
                while i < splits.len()
                    invariant
                        i <= splits.len(),
                        command_fault(self@) == unknown_split(splits.deep_view(), 0),
                        unknown_split(splits.deep_view(), i as int) == unknown_split(
                            splits.deep_view(),
                            0,
                        ),
                    decreases splits.len() - i,
                {
                    assert(splits.deep_view()[i as int] == splits[i as int]@);
                    if !(str_eq(splits[i].as_str(), "ROOT") || str_eq(
                        splits[i].as_str(),
                        "DOCUMENT",
                    )) {
                        return Err(copy_str(splits[i].as_str()));
                    }
                    i += 1;
                }
                Ok(())
            },
            _ => Ok(()),
        }
    }

    pub fn duplicate(&self) -> (r: Command)
        ensures
            r@ == self@,
    {
        match self {
            Command::Graph { headers, graph_type, paths } => Command::Graph {
                headers: crate::text::copy_opt_str(headers),
                graph_type: *graph_type,
                paths: copy_strings(paths),
            },
            Command::Index { paths } => Command::Index { paths: copy_strings(paths) },
            Command::Build { headers, splits, paths } => Command::Build {
                headers: crate::text::copy_opt_str(headers),
                splits: copy_strings(splits),
                paths: copy_strings(paths),
            },
            Command::Exit => Command::Exit,
        }
    }
}

/// The settings of a run.
#[derive(Debug, Clone)]
pub struct Config {
    /// Output format
    pub format: Option<String>,
    /// Interactive mode
    pub interactive: bool,
    /// Output path or target
    pub output: Option<Output>,
    /// Log format: `auto`, `html` or `plain`
    pub log_format: &'static str,
    /// Level of verbosity
    pub verbosity: u8,
    pub command: Option<Command>,
}

/// The output that a run writes to when the log format is `log_format`
/// and `output` was asked for: the HTML log takes what would go to
/// standard output or nowhere, and without a wish the output goes to
/// `./build`.
pub open spec fn default_output(log_format: Seq<char>, output: Option<OutputV>) -> Option<OutputV> {
    if log_format == "html"@ && output is None {
        Some(OutputV::StdOutLog)
    } else if log_format == "html"@ && output == Some(OutputV::StdOut) {
        Some(OutputV::StdOutLog)
    } else if output is None {
        Some(OutputV::Path("./build"@))
    } else {
        output
    }
}

impl Config {
    /// Fills in the output where none was asked for, or where the HTML log
    /// takes it over.
    pub fn defaults(self) -> (r: Self)
        ensures
            r.output.is_some(),
            match r.output {
                Some(o) => Some(o@),
                None => None,
            } == default_output(
                self.log_format@,
                match self.output {
                    Some(o) => Some(o@),
                    None => None,
                },
            ),
            r.format == self.format,
            r.interactive == self.interactive,
            r.log_format == self.log_format,
            r.verbosity == self.verbosity,
            r.command == self.command,
    {
        let mut c = self;
        let html = str_eq(c.log_format, "html");
        let is_none = c.output.is_none();
        let is_stdout = match &c.output {
            Some(Output::StdOut) => true,
            _ => false,
        };
        if html && (is_none || is_stdout) {
            c.output = Some(Output::StdOutLog);
        } else if is_none {
            c.output = Some(Output::Path(copy_str("./build")));
        }
        c
    }
}

impl Default for Config {
    fn default() -> (r: Self)
        ensures
            r.format is None,
            !r.interactive,
            r.output is None,
            r.log_format@ == ""@,
            r.verbosity == 0,
            r.command is None,
    {
        Config {
            format: None,
            interactive: false,
            output: None,
            log_format: "",
            verbosity: 0,
            command: None,
        }
    }
}

/// Whether `p` stands somewhere in `s`, at or after `from`.
pub open spec fn contains_from(s: Seq<char>, p: Seq<char>, from: int) -> bool
    decreases s.len() - from,
{
    if from < 0 || from > s.len() {
        false
    } else if occurs_at(s, from, p) {
        true
    } else if from == s.len() {
        false
    } else {
        contains_from(s, p, from + 1)
    }
}

/// Whether `p` stands somewhere in `s`.
pub open spec fn contains_text(s: Seq<char>, p: Seq<char>) -> bool {
    contains_from(s, p, 0)
}

/// Whether `p` stands somewhere in `s`.
pub fn text_contains(s: &str, p: &str) -> (r: bool)
    ensures
        r == contains_text(s@, p@),
{
    let sv = chars_of(s);
    let pv = chars_of(p);
    let mut i: usize = 0;
    while i < sv.len()
        invariant
            i <= sv.len(),
            sv@ == s@,
            pv@ == p@,
            contains_from(sv@, pv@, i as int) == contains_text(sv@, pv@),
        decreases sv.len() - i,
    {
        if has_at(&sv, i, &pv) {
            return true;
        }
        i += 1;
    }
    has_at(&sv, i, &pv)
}

/// `arg` without every leading `file://`.
pub open spec fn without_file_scheme(arg: Seq<char>) -> Seq<char>
    decreases arg.len(),
{
    if "file://"@.is_prefix_of(arg) && "file://"@.len() > 0 {
        without_file_scheme(arg.skip("file://"@.len() as int))
    } else {
        arg
    }
}

/// `arg` without every leading `file://`.
pub fn strip_file_scheme(arg: &str) -> (r: String)
    ensures
        r@ == without_file_scheme(arg@),
{
    let v = chars_of(arg);
    let p = chars_of("file://");
    proof {
        reveal_strlit("file://");
    }
    let mut i: usize = 0;
    assert(v@.skip(0) =~= v@);
    while has_at(&v, i, &p)
        invariant
            i <= v.len(),
            p@ == "file://"@,
            p@.len() == 7,
            without_file_scheme(v@.skip(i as int)) == without_file_scheme(v@),
        decreases v.len() - i,
    {
        proof {
            let rest = v@.skip(i as int);
            assert(rest.subrange(0, 7) =~= v@.subrange(i as int, i + 7));
            assert(p@.is_prefix_of(rest));
            assert(rest.skip(7) =~= v@.skip(i + 7));
        }
        i += 7;
    }
    proof {
        let rest = v@.skip(i as int);
        if p@.is_prefix_of(rest) {
            assert(rest.subrange(0, 7) =~= v@.subrange(i as int, i + 7));
        }
        assert(v@.subrange(i as int, v.len() as int) =~= rest);
    }
    string_of_range(&v, i, v.len())
}

/// What an output argument asks for, where `is_file` tells whether the
/// path that it names, taken without `file://`, is a file on disk.
pub open spec fn parsed_output(arg: Seq<char>, is_file: bool) -> Result<OutputV, Seq<char>> {
    if "stdout"@.is_prefix_of(arg) {
        Ok(OutputV::StdOut)
    } else if "file://"@.is_prefix_of(arg) || !contains_text(arg, "://"@) {
        if is_file {
            Err("Output must be a directory"@)
        } else {
            Ok(OutputV::Path(without_file_scheme(arg)))
        }
    } else {
        Err("Unknown scheme"@)
    }
}

/// Reads an output argument: `stdout`, or a directory given as a path or
/// as a `file://` URL. `is_file` tells whether the path that is named is
/// a file on disk.
pub fn parse_out(arg: &str, is_file: bool) -> (r: Result<Output, &'static str>)
    ensures
        match r {
            Ok(o) => parsed_output(arg@, is_file) == Ok::<OutputV, Seq<char>>(o@),
            Err(m) => parsed_output(arg@, is_file) == Err::<OutputV, Seq<char>>(m@),
        },
{
    if starts_with(arg, "stdout") {
        Ok(Output::StdOut)
    } else if starts_with(arg, "file://") || !text_contains(arg, "://") {
        if is_file {
            Err("Output must be a directory")
        } else {
            Ok(Output::Path(strip_file_scheme(arg)))
        }
    } else {
        Err("Unknown scheme")
    }
}

/// The log format that an argument names.
pub open spec fn parsed_log_format(arg: Seq<char>) -> Result<Seq<char>, Seq<char>> {
    if arg == "auto"@ || arg == "html"@ || arg == "plain"@ {
        Ok(arg)
    } else {
        Err("Unknown progress"@)
    }
}

/// Reads a log format: `auto`, `html` or `plain`.
pub fn parse_log_format(arg: &str) -> (r: Result<&'static str, &'static str>)
    ensures
        match r {
            Ok(f) => parsed_log_format(arg@) == Ok::<Seq<char>, Seq<char>>(f@),
            Err(m) => parsed_log_format(arg@) == Err::<Seq<char>, Seq<char>>(m@),
        },
{
    if str_eq(arg, "auto") {
        Ok("auto")
    } else if str_eq(arg, "html") {
        Ok("html")
    } else if str_eq(arg, "plain") {
        Ok("plain")
    } else {
        Err("Unknown progress")
    }
}

} // verus!
