//! What preprocessing adds to the graph: the operations that bring about
//! what a document links to.
use crate::cli::graph::{GraphV, OpGraph};
use crate::cli::op::{ops_view, OpId, OpIdV, Operation, OperationV};
use crate::cli::types::{AppError, AppErrorV, Source, SourceV};
use crate::cli::utils::{parent, parent_of};
use crate::strmap::{find_key, lemma_position, position};
use crate::text::{
    cat, copy_str, ends_with, rsplit_once, rsplit_once_at, split_once, split_once_at, str_eq,
};
use crate::types::{
    deps_view, Dependency, DependencyV, ExecArtifact, ExecArtifactV, ExecInput, ExecInputV,
    Location, LocationMap, LocationV,
};
use vstd::prelude::*;

verus! {

/// The views of a list of locations.
pub open spec fn locations_view(s: Seq<Location>) -> Seq<LocationV> {
    s.map_values(|l: Location| l@)
}

/// The source that is indexed under `key`.
pub open spec fn source_at(keys: Seq<Seq<char>>, vals: Seq<LocationV>, key: Seq<char>) -> Option<
    SourceV,
> {
    match position(keys, key) {
        Some(i) => if i < vals.len() {
            Some(SourceV::of_location(vals[i]))
        } else {
            None
        },
        None => None,
    }
}

/// The source that is indexed under `key`.
pub fn source_of(locs: &LocationMap, key: &str) -> (r: Option<Source>)
    requires
        locs.wf(),
    ensures
        match r {
            Some(s) => source_at(locs.keys.deep_view(), locations_view(locs.vals@), key@) == Some(
                s@,
            ),
            None => source_at(locs.keys.deep_view(), locations_view(locs.vals@), key@) is None,
        },
{
    match locs.find(key) {
        Some(i) => {
            assert(locations_view(locs.vals@)[i as int] == locs.vals[i as int]@);
            Some(Source::from_location(locs.vals[i].duplicate()))
        },
        None => None,
    }
}

/// `name` below the directory `dir`, as text: `name` alone where `dir` is
/// empty or `name` begins at the root, and else `dir`, one `/` unless
/// `dir` ends in one, and `name`. Nothing is made of `.` or `..`.
pub open spec fn joined(dir: Seq<char>, name: Seq<char>) -> Seq<char> {
    if dir.len() == 0 || "/"@.is_prefix_of(name) {
        name
    } else if "/"@.is_suffix_of(dir) {
        dir + name
    } else {
        dir + "/"@ + name
    }
}

/// `name` below the directory `dir`.
pub fn join_path(dir: &str, name: &str) -> (r: String)
    ensures
        r@ == joined(dir@, name@),
{
    if dir.is_empty() || crate::text::starts_with(name, "/") {
        copy_str(name)
    } else if ends_with(dir, "/") {
        cat(dir, name)
    } else {
        cat(cat(dir, "/").as_str(), name)
    }
}

/// What a link asks of the graph.
pub enum Plan {
    /// Nothing: what it names is scheduled already.
    Skip,
    /// A chain of operations.
    Chain(Vec<Operation>),
    /// A chain of operations, and one more dependency before it.
    Linked(OpId, OpId, Vec<Operation>),
}

/// Model of a [`Plan`].
pub enum PlanV {
    Skip,
    Chain(Seq<OperationV>),
    Linked(OpIdV, OpIdV, Seq<OperationV>),
}

impl View for Plan {
    type V = PlanV;

    open spec fn view(&self) -> PlanV {
        match self {
            Plan::Skip => PlanV::Skip,
            Plan::Chain(c) => PlanV::Chain(ops_view(c@)),
            Plan::Linked(a, b, c) => PlanV::Linked(a@, b@, ops_view(c@)),
        }
    }
}

/// Whether an operation of the graph has the URI `uri`.
pub open spec fn has_uri(g: GraphV, uri: Seq<char>) -> bool {
    exists|i: int| 0 <= i < g.ids.len() && g.ids[i].uri() == uri
}

/// The parts of a URI that scheduling goes by.
pub struct UriParts {
    pub schema: Seq<char>,
    /// What stands behind the scheme.
    pub path: Seq<char>,
    /// The path without its fragment.
    pub stem: Seq<char>,
    pub fragment: Seq<char>,
}

/// The parts of a URI; `None` for a text without a scheme.
pub open spec fn uri_parts(uri: Seq<char>) -> Option<UriParts> {
    match split_once(uri, ':') {
        None => None,
        Some((schema, path)) => match rsplit_once(path, '#') {
            Some((stem, fragment)) => Some(UriParts { schema, path, stem, fragment }),
            None => Some(UriParts { schema, path, stem: path, fragment: Seq::empty() }),
        },
    }
}

/// The media type of what a scheduled command writes.
pub open spec fn plain_stdout() -> ExecArtifactV {
    ExecArtifactV::Stdout("text/plain"@)
}

/// The pipeline that makes a written file of a source.
pub open spec fn full_chain(id: Seq<char>, source: SourceV, headers: Option<Seq<char>>) -> Seq<
    OperationV,
> {
    seq![
        OperationV::Load { id, source },
        OperationV::Parse { id },
        OperationV::Preprocess { id, headers },
        OperationV::Compile { id },
        OperationV::Write { id },
        OperationV::Finish,
    ]
}

/// What the link `uri` of kind `kind`, found while preprocessing `op`,
/// asks of the graph `g`. `exists` tells whether the path of an `exec`
/// link is a file on disk, and `commanded` whether a command that was
/// found along with the link writes under that path.
///
/// Nothing is asked where the graph holds an operation with the URI, or
/// with the URI without its fragment. A `src` link is made to come before
/// `op`: a command by running the file, or, where there is no file and no
/// command, by compiling the named fragment to plain text, writing it
/// beside the document and running that; a file, tree or preprocessed
/// tree by loading, parsing and preprocessing the indexed source; a copy
/// by copying it. A `ref` link gets a pipeline of its own that ends in
/// `Finish`.
pub open spec fn planned(
    kind: Seq<char>,
    uri: Seq<char>,
    op: OperationV,
    g: GraphV,
    keys: Seq<Seq<char>>,
    vals: Seq<LocationV>,
    exists: bool,
    commanded: bool,
) -> Result<PlanV, AppErrorV> {
    match uri_parts(uri) {
        None => Err(AppErrorV::BadUri(uri)),
        Some(u) => if has_uri(g, u.schema + ":"@ + u.stem) || has_uri(g, uri) {
            Ok(PlanV::Skip)
        } else if kind == "src"@ && u.schema == "exec"@ {
            if exists {
                Ok(
                    PlanV::Chain(
                        seq![
                            OperationV::Exec {
                                id: u.path,
                                cmd: "./"@ + u.path,
                                input: None,
                                artifact: plain_stdout(),
                            },
                            op,
                        ],
                    ),
                )
            } else if commanded {
                Ok(PlanV::Skip)
            } else if u.fragment.len() == 0 {
                Err(AppErrorV::FileNotFound(u.path))
            } else {
                match parent_of(op.id().uri_path()) {
                    None => Err(AppErrorV::BadPath(op.id().uri_path())),
                    Some(dir) => {
                        let target = joined(
                            if dir.len() == 0 {
                                "."@
                            } else {
                                dir
                            },
                            u.fragment + ".tmp"@,
                        );
                        Ok(
                            PlanV::Chain(
                                seq![
                                    OperationV::CompilePlaintext {
                                        id: u.path,
                                        source_uri: "parse:"@ + u.path,
                                    },
                                    OperationV::Tangle { id: u.path, target },
                                    OperationV::Exec {
                                        id: u.path,
                                        cmd: target,
                                        input: None,
                                        artifact: plain_stdout(),
                                    },
                                    op,
                                ],
                            ),
                        )
                    },
                }
            }
        } else if kind == "src"@ {
            match source_at(keys, vals, u.stem) {
                None => Err(AppErrorV::FileNotFound(u.path)),
                Some(source) => if u.schema == "file"@ {
                    Ok(PlanV::Chain(seq![OperationV::Load { id: u.stem, source }, op]))
                } else if u.schema == "ast"@ {
                    Ok(
                        PlanV::Chain(
                            seq![
                                OperationV::Load { id: u.stem, source },
                                OperationV::Parse { id: u.stem },
                                op,
                            ],
                        ),
                    )
                } else if u.schema == "parse"@ {
                    Ok(
                        PlanV::Chain(
                            seq![
                                OperationV::Load { id: u.stem, source },
                                OperationV::Parse { id: u.stem },
                                OperationV::Preprocess { id: u.stem, headers: None },
                                op,
                            ],
                        ),
                    )
                } else if u.schema == "copy"@ {
                    Ok(
                        PlanV::Chain(
                            seq![OperationV::Copy { id: u.stem, source }, OperationV::Finish],
                        ),
                    )
                } else {
                    Err(AppErrorV::UnknownSchema(u.schema))
                },
            }
        } else if u.schema == "exec"@ {
            Ok(
                PlanV::Linked(
                    OpIdV { op: crate::cli::op::Op::Write, id: u.path },
                    OpIdV { op: crate::cli::op::Op::Exec, id: u.path },
                    seq![OperationV::Write { id: u.path }, OperationV::Finish],
                ),
            )
        } else if u.schema == "copy"@ {
            match source_at(keys, vals, u.path) {
                None => Err(AppErrorV::FileNotFound(u.path)),
                Some(source) => Ok(
                    PlanV::Chain(seq![OperationV::Copy { id: u.stem, source }, OperationV::Finish]),
                ),
            }
        } else if u.schema == "write"@ {
            match source_at(keys, vals, u.path) {
                None => Err(AppErrorV::FileNotFound(u.path)),
                Some(source) => Ok(PlanV::Chain(full_chain(u.path, source, None))),
            }
        } else {
            Err(AppErrorV::UnknownSchema(u.schema))
        },
    }
}

/// The graph with what a plan asks for.
pub open spec fn with_plan(g: GraphV, plan: PlanV) -> GraphV {
    match plan {
        PlanV::Skip => g,
        PlanV::Chain(c) => g.with_chain(c),
        PlanV::Linked(a, b, c) => g.with_dependency(a, b).with_chain(c),
    }
}

/// The pipeline that makes a written file of a source.
pub fn make_full_chain(id: &str, source: Source, headers: Option<String>) -> (r: Vec<Operation>)
    ensures
        ops_view(r@) == full_chain(id@, source@, headers.deep_view()),
{
    let mut c: Vec<Operation> = Vec::new();
    c.push(Operation::Load { id: copy_str(id), source });
    c.push(Operation::Parse { id: copy_str(id) });
    c.push(Operation::Preprocess { id: copy_str(id), headers });
    c.push(Operation::Compile { id: copy_str(id) });
    c.push(Operation::Write { id: copy_str(id) });
    c.push(Operation::Finish);
    assert(ops_view(c@) =~= full_chain(id@, source@, headers.deep_view()));
    c
}

fn chain2(a: Operation, b: Operation) -> (r: Vec<Operation>)
    ensures
        ops_view(r@) == seq![a@, b@],
{
    let mut c: Vec<Operation> = Vec::new();
    c.push(a);
    c.push(b);
    assert(ops_view(c@) =~= seq![a@, b@]);
    c
}

fn chain3(a: Operation, b: Operation, c3: Operation) -> (r: Vec<Operation>)
    ensures
        ops_view(r@) == seq![a@, b@, c3@],
{
    let mut c: Vec<Operation> = Vec::new();
    c.push(a);
    c.push(b);
    c.push(c3);
    assert(ops_view(c@) =~= seq![a@, b@, c3@]);
    c
}

fn chain4(a: Operation, b: Operation, c3: Operation, d: Operation) -> (r: Vec<Operation>)
    ensures
        ops_view(r@) == seq![a@, b@, c3@, d@],
{
    let mut c: Vec<Operation> = Vec::new();
    c.push(a);
    c.push(b);
    c.push(c3);
    c.push(d);
    assert(ops_view(c@) =~= seq![a@, b@, c3@, d@]);
    c
}

/// Whether an operation of the graph has the URI `uri`.
fn graph_has_uri(graph: &OpGraph, uri: &str) -> (r: bool)
    requires
        graph.wf(),
    ensures
        r == has_uri(graph@, uri@),
{
    graph.get_uri(uri).is_some()
}

/// What a link asks of the graph.
pub fn plan_link(
    kind: &str,
    uri: &str,
    op: &Operation,
    graph: &OpGraph,
    locs: &LocationMap,
    exists: bool,
    commanded: bool,
) -> (r: Result<Plan, AppError>)
    requires
        graph.wf(),
        locs.wf(),
    ensures
        match r {
            Ok(p) => planned(
                kind@,
                uri@,
                op@,
                graph@,
                locs.keys.deep_view(),
                locations_view(locs.vals@),
                exists,
                commanded,
            ) == Ok::<PlanV, AppErrorV>(p@),
            Err(e) => planned(
                kind@,
                uri@,
                op@,
                graph@,
                locs.keys.deep_view(),
                locations_view(locs.vals@),
                exists,
                commanded,
            ) == Err::<PlanV, AppErrorV>(e@),
        },
{
    let (schema, path) = match split_once_at(uri, ':') {
        Some(p) => p,
        None => {
            return Err(AppError::BadUri(copy_str(uri)));
        },
    };
    let (stem, fragment) = match rsplit_once_at(path.as_str(), '#') {
        Some(p) => p,
        None => (copy_str(path.as_str()), String::new()),
    };
    let short = cat(cat(schema.as_str(), ":").as_str(), stem.as_str());
    if graph_has_uri(graph, short.as_str()) || graph_has_uri(graph, uri) {
        return Ok(Plan::Skip);
    }
    let is_src = str_eq(kind, "src");
    let schema = schema.as_str();
    if is_src && str_eq(schema, "exec") {
        let artifact = ExecArtifact::Stdout(copy_str("text/plain"));
        if exists {
            let cmd = cat("./", path.as_str());
            Ok(
                Plan::Chain(
                    chain2(Operation::Exec { id: path, cmd, input: None, artifact }, op.duplicate()),
                ),
            )
        } else if commanded {
            Ok(Plan::Skip)
        } else if fragment.as_str().is_empty() {
            Err(AppError::FileNotFound(path))
        } else {
            let own = op.uri_path();
            let dir = match parent(own.as_str()) {
                Some(d) => d,
                None => {
                    return Err(AppError::BadPath(own));
                },
            };
            let dir = if dir.as_str().is_empty() {
                copy_str(".")
            } else {
                dir
            };
            let name = cat(fragment.as_str(), ".tmp");
            let target = join_path(dir.as_str(), name.as_str());
            let source_uri = cat("parse:", path.as_str());
            Ok(
                Plan::Chain(
                    chain4(
                        Operation::CompilePlaintext { id: copy_str(path.as_str()), source_uri },
                        Operation::Tangle {
                            id: copy_str(path.as_str()),
                            target: copy_str(target.as_str()),
                        },
                        Operation::Exec { id: path, cmd: target, input: None, artifact },
                        op.duplicate(),
                    ),
                ),
            )
        }
    } else if is_src {
        let source = match source_of(locs, stem.as_str()) {
            Some(s) => s,
            None => {
                return Err(AppError::FileNotFound(path));
            },
        };
        if str_eq(schema, "file") {
            Ok(Plan::Chain(chain2(Operation::Load { id: stem, source }, op.duplicate())))
        } else if str_eq(schema, "ast") {
            Ok(
                Plan::Chain(
                    chain3(
                        Operation::Load { id: copy_str(stem.as_str()), source },
                        Operation::Parse { id: stem },
                        op.duplicate(),
                    ),
                ),
            )
        } else if str_eq(schema, "parse") {
            Ok(
                Plan::Chain(
                    chain4(
                        Operation::Load { id: copy_str(stem.as_str()), source },
                        Operation::Parse { id: copy_str(stem.as_str()) },
                        Operation::Preprocess { id: stem, headers: None },
                        op.duplicate(),
                    ),
                ),
            )
        } else if str_eq(schema, "copy") {
            Ok(Plan::Chain(chain2(Operation::Copy { id: stem, source }, Operation::Finish)))
        } else {
            Err(AppError::UnknownSchema(copy_str(schema)))
        }
    } else if str_eq(schema, "exec") {
        Ok(
            Plan::Linked(
                OpId::write(path.as_str()),
                OpId::exec(path.as_str()),
                chain2(Operation::Write { id: path }, Operation::Finish),
            ),
        )
    } else if str_eq(schema, "copy") {
        match source_of(locs, path.as_str()) {
            Some(source) => Ok(
                Plan::Chain(chain2(Operation::Copy { id: stem, source }, Operation::Finish)),
            ),
            None => Err(AppError::FileNotFound(path)),
        }
    } else if str_eq(schema, "write") {
        match source_of(locs, path.as_str()) {
            Some(source) => Ok(Plan::Chain(make_full_chain(path.as_str(), source, None))),
            None => Err(AppError::FileNotFound(path)),
        }
    } else {
        Err(AppError::UnknownSchema(copy_str(schema)))
    }
}

/// Puts what a plan asks for into the graph.
pub fn apply_plan(graph: &mut OpGraph, plan: Plan)
    requires
        old(graph).wf(),
    ensures
        final(graph).wf(),
        final(graph)@ == with_plan(old(graph)@, plan@),
{
    match plan {
        Plan::Skip => {},
        Plan::Chain(c) => {
            graph.insert_node_chain(c);
        },
        Plan::Linked(a, b, c) => {
            graph.add_dependency(a, b);
            graph.insert_node_chain(c);
        },
    }
}

/// Whether the path of a link is among the files that are there.
pub open spec fn link_exists(existing: Seq<Seq<char>>, uri: Seq<char>) -> bool {
    match uri_parts(uri) {
        Some(u) => existing.contains(u.path),
        None => false,
    }
}

/// Whether one of the commands `deps[i..]` has the id `id`.
pub open spec fn commands_have(deps: Seq<DependencyV>, i: int, id: Seq<char>) -> bool
    decreases deps.len() - i,
{
    if i < 0 || i >= deps.len() {
        false
    } else {
        match deps[i] {
            DependencyV::Exec { id: d, .. } => d == id || commands_have(deps, i + 1, id),
            _ => commands_have(deps, i + 1, id),
        }
    }
}

/// Whether one of the commands among `deps` writes under the path of the link.
pub open spec fn link_commanded(deps: Seq<DependencyV>, uri: Seq<char>) -> bool {
    match uri_parts(uri) {
        Some(u) => commands_have(deps, 0, u.path),
        None => false,
    }
}

/// Whether one of the commands among `deps` has the id `id`.
fn has_command(deps: &Vec<Dependency>, id: &str) -> (r: bool)
    ensures
        r == commands_have(deps_view(deps@), 0, id@),
{
    let mut i: usize = 0;
    while i < deps.len()
        invariant
            i <= deps.len(),
            commands_have(deps_view(deps@), i as int, id@) == commands_have(
                deps_view(deps@),
                0,
                id@,
            ),
        decreases deps.len() - i,
    {
        assert(deps_view(deps@)[i as int] == deps[i as int]@);
        match &deps[i] {
            Dependency::Exec { id: d, .. } => {
                if str_eq(d.as_str(), id) {
                    return true;
                }
            },
            _ => {},
        }
        i += 1;
    }
    false
}

/// What scheduling leaves: the graph, and the error where a link could
/// not be scheduled.
pub struct Scheduled {
    pub graph: GraphV,
    pub error: Option<AppErrorV>,
}

/// The graph after the links `deps[i..]` are scheduled in order; commands
/// are passed over. The first link that cannot be scheduled ends the
/// work with its error; what was scheduled before it stays.
pub open spec fn links_from(
    deps: Seq<DependencyV>,
    i: int,
    op: OperationV,
    g: GraphV,
    keys: Seq<Seq<char>>,
    vals: Seq<LocationV>,
    existing: Seq<Seq<char>>,
) -> Scheduled
    decreases deps.len() - i,
{
    if i < 0 || i >= deps.len() {
        Scheduled { graph: g, error: None }
    } else {
        match deps[i] {
            DependencyV::URI(kind, uri) => match planned(
                kind,
                uri,
                op,
                g,
                keys,
                vals,
                link_exists(existing, uri),
                link_commanded(deps, uri),
            ) {
                Ok(p) => links_from(deps, i + 1, op, with_plan(g, p), keys, vals, existing),
                Err(e) => Scheduled { graph: g, error: Some(e) },
            },
            DependencyV::Exec { .. } => links_from(deps, i + 1, op, g, keys, vals, existing),
        }
    }
}

/// The graph after the commands among `deps[i..]` are put into it, each
/// as an `Exec` operation that is fed the command's input; links are
/// passed over.
pub open spec fn commands_from(deps: Seq<DependencyV>, i: int, g: GraphV) -> GraphV
    decreases deps.len() - i,
{
    if i < 0 || i >= deps.len() {
        g
    } else {
        match deps[i] {
            DependencyV::URI(..) => commands_from(deps, i + 1, g),
            DependencyV::Exec { id, cmd, input, artifact } => commands_from(
                deps,
                i + 1,
                g.with_node(
                    OperationV::Exec {
                        id,
                        cmd,
                        input: match input {
                            Some(text) => Some(ExecInputV::String(text)),
                            None => None,
                        },
                        artifact,
                    },
                ),
            ),
        }
    }
}

/// The graph after the dependencies that preprocessing `op` found are
/// scheduled: first the links in order, then the commands in order. No
/// command is scheduled where a link failed.
pub open spec fn scheduled(
    deps: Seq<DependencyV>,
    op: OperationV,
    g: GraphV,
    keys: Seq<Seq<char>>,
    vals: Seq<LocationV>,
    existing: Seq<Seq<char>>,
) -> Scheduled {
    let links = links_from(deps, 0, op, g, keys, vals, existing);
    if links.error is Some {
        links
    } else {
        Scheduled { graph: commands_from(deps, 0, links.graph), error: None }
    }
}

/// The paths of the `exec` links by `src` among `deps[i..]`, behind
/// those of `acc`: the paths of which the scheduler asks whether they
/// are files on disk.
pub open spec fn asked_from(deps: Seq<DependencyV>, i: int, acc: Seq<Seq<char>>) -> Seq<Seq<char>>
    decreases deps.len() - i,
{
    if i < 0 || i >= deps.len() {
        acc
    } else {
        match deps[i] {
            DependencyV::URI(kind, uri) => match split_once(uri, ':') {
                Some((schema, path)) => if kind == "src"@ && schema == "exec"@ {
                    asked_from(deps, i + 1, acc.push(path))
                } else {
                    asked_from(deps, i + 1, acc)
                },
                None => asked_from(deps, i + 1, acc),
            },
            DependencyV::Exec { .. } => asked_from(deps, i + 1, acc),
        }
    }
}

/// The paths of which the scheduler asks whether they are files on disk.
pub fn exec_paths(deps: &Vec<Dependency>) -> (r: Vec<String>)
    ensures
        r.deep_view() == asked_from(deps_view(deps@), 0, Seq::empty()),
{
    let ghost all = deps_view(deps@);
    let mut out: Vec<String> = Vec::new();
    let mut i: usize = 0;
    assert(out.deep_view() =~= Seq::<Seq<char>>::empty());
    while i < deps.len()
        invariant
            i <= deps.len(),
            all == deps_view(deps@),
            asked_from(all, i as int, out.deep_view()) == asked_from(all, 0, Seq::empty()),
        decreases deps.len() - i,
    {
        let ghost before = out.deep_view();
        assert(all[i as int] == deps[i as int]@);
        match &deps[i] {
            Dependency::URI(kind, uri) => {
                match split_once_at(uri.as_str(), ':') {
                    Some((schema, path)) => {
                        if str_eq(kind, "src") && str_eq(schema.as_str(), "exec") {
                            out.push(path);
                            assert(out.deep_view() =~= before.push(path@));
                        }
                    },
                    None => {},
                }
            },
            _ => {},
        }
        i += 1;
    }
    out
}

/// Schedules the dependencies that preprocessing `op` found: puts what
/// the links ask for into the graph, and then the commands. `existing`
/// lists the paths, among those of the `exec` links, that are files on disk.
pub fn schedule_dependencies(
    op: &Operation,
    deps: Vec<Dependency>,
    existing: &Vec<String>,
    graph: &mut OpGraph,
    locs: &LocationMap,
) -> (r: Result<(), AppError>)
    requires
        old(graph).wf(),
        locs.wf(),
    ensures
        final(graph).wf(),
        ({
            let m = scheduled(
                deps_view(deps@),
                op@,
                old(graph)@,
                locs.keys.deep_view(),
                locations_view(locs.vals@),
                existing.deep_view(),
            );
            &&& final(graph)@ == m.graph
            &&& match r {
                Ok(_) => m.error is None,
                Err(e) => m.error == Some(e@),
            }
        }),
{
    let ghost all = deps_view(deps@);
    let ghost keys = locs.keys.deep_view();
    let ghost vals = locations_view(locs.vals@);
    let ghost ex = existing.deep_view();
    let ghost g0 = graph@;
    let mut i: usize = 0;
    while i < deps.len()
        invariant
            i <= deps.len(),
            graph.wf(),
            locs.wf(),
            all == deps_view(deps@),
            keys == locs.keys.deep_view(),
            vals == locations_view(locs.vals@),
            ex == existing.deep_view(),
            g0 == old(graph)@,
            links_from(all, i as int, op@, graph@, keys, vals, ex) == links_from(
                all,
                0,
                op@,
                g0,
                keys,
                vals,
                ex,
            ),
        decreases deps.len() - i,
    {
        assert(all[i as int] == deps[i as int]@);
        match &deps[i] {
            Dependency::URI(kind, uri) => {
                let (exists, commanded) = match split_once_at(uri.as_str(), ':') {
                    Some((_, path)) => {
                        proof {
                            lemma_position(ex, path@);
                        }
                        (
                            find_key(existing, path.as_str()).is_some(),
                            has_command(&deps, path.as_str()),
                        )
                    },
                    None => (false, false),
                };
                assert(exists == link_exists(ex, uri@));
                assert(commanded == link_commanded(all, uri@));
                let ghost g = graph@;
                match plan_link(kind, uri.as_str(), op, graph, locs, exists, commanded) {
                    Ok(p) => apply_plan(graph, p),
                    Err(e) => {
                        assert(links_from(all, i as int, op@, g, keys, vals, ex) == (Scheduled {
                            graph: g,
                            error: Some(e@),
                        }));
                        return Err(e);
                    },
                }
            },
            Dependency::Exec { .. } => {},
        }
        i += 1;
    }
    let ghost g1 = graph@;
    let mut k: usize = 0;
    while k < deps.len()
        invariant
            k <= deps.len(),
            graph.wf(),
            all == deps_view(deps@),
            commands_from(all, k as int, graph@) == commands_from(all, 0, g1),
        decreases deps.len() - k,
    {
        assert(all[k as int] == deps[k as int]@);
        match &deps[k] {
            Dependency::Exec { id, cmd, input, artifact } => {
                let input = match input {
                    Some(text) => Some(ExecInput::String(copy_str(text.as_str()))),
                    None => None,
                };
                graph.insert_node(
                    Operation::Exec {
                        id: copy_str(id.as_str()),
                        cmd: copy_str(cmd.as_str()),
                        input,
                        artifact: artifact.duplicate(),
                    },
                );
            },
            _ => {},
        }
        k += 1;
    }
    Ok(())
}

} // verus!
