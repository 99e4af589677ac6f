//! The state of a run, what events do to it, and the scheduler pass.
use crate::cli::command::{Command, CommandV};
use crate::cli::graph::{find_id, lemma_seek, lemma_seek_contains, seek, GraphV, OpGraph};
use crate::cli::graph_sorter::{grouped_topological_sort, is_grouping, level, levels_view, ready};
use crate::cli::op::{ids_view, ops_view, OpId, OpIdV, Operation, OperationV};
use crate::cli::schedule::{locations_view, source_at, source_of};
use crate::cli::task::{arts, locs, put, store};
use crate::cli::types::{
    source_id, sources_view, AppError, AppErrorV, Artifact, ArtifactMap, Source, SourceV,
};
use crate::cli::utils::{parents, parents_from};
use crate::compiler::lang::{lang_of, Lang, LangV};
use crate::strmap::StrMap;
use crate::text::{cat, copy_str};
use crate::types::{
    AstMap, ExecArtifact, ExecArtifactV, ExecInput, ExecInputV, Location, LocationMap, LocationV,
};
use vstd::prelude::*;

verus! {

/// What the event loop is told.
#[derive(Debug)]
pub enum Event {
    /// A command, or the message of the command line that was no command.
    Command(Result<Command, String>),
    CommandOk,
    TaskOk,
    TaskError(AppError),
}

/// State container
#[derive(Debug)]
pub struct State {
    pub artifacts: ArtifactMap,
    pub asts: AstMap,
    pub locations: LocationMap,
    /// The languages by format; `None` until they are loaded.
    pub languages: Option<StrMap<Lang>>,
    pub operations: OpGraph,
    pub operations_processed: Vec<OpId>,
    pub should_exit: bool,
}

impl State {
    /// Every part is well-formed.
    pub open spec fn wf(&self) -> bool {
        &&& self.artifacts.wf()
        &&& self.asts.wf()
        &&& self.locations.wf()
        &&& self.operations.wf()
        &&& self.languages matches Some(l) ==> l.wf()
    }

    pub fn new() -> (r: Self)
        ensures
            r.wf(),
            r.operations@ == GraphV::empty(),
            r.operations_processed@.len() == 0,
            r.locations.keys@.len() == 0,
            r.artifacts.keys@.len() == 0,
            r.languages is None,
            !r.should_exit,
    {
        State {
            artifacts: StrMap::new(),
            asts: AstMap::new(),
            locations: StrMap::new(),
            languages: None,
            operations: OpGraph::new(),
            operations_processed: Vec::new(),
            should_exit: false,
        }
    }

    /// Puts an operation into the graph.
    pub fn insert_op(&mut self, op: Operation) -> (r: OpId)
        requires
            old(self).wf(),
        ensures
            final(self).wf(),
            final(self).operations@ == old(self).operations@.with_node(op@),
            r@ == op@.id(),
            final(self).asts == old(self).asts,
            final(self).artifacts == old(self).artifacts,
            final(self).locations == old(self).locations,
            final(self).languages == old(self).languages,
            final(self).operations_processed == old(self).operations_processed,
            final(self).should_exit == old(self).should_exit,
    {
        self.operations.insert_node(op)
    }

    /// Stores an artifact under a URI.
    pub fn insert_artifact(&mut self, uri: &str, art: Artifact)
        requires
            old(self).wf(),
        ensures
            final(self).wf(),
            arts(&final(self).artifacts) == put(
                arts(&old(self).artifacts).0,
                arts(&old(self).artifacts).1,
                uri@,
                art@,
            ),
            final(self).asts == old(self).asts,
            final(self).locations == old(self).locations,
            final(self).languages == old(self).languages,
            final(self).operations == old(self).operations,
            final(self).operations_processed == old(self).operations_processed,
            final(self).should_exit == old(self).should_exit,
    {
        store(&mut self.artifacts, copy_str(uri), art);
    }

    /// Indexes a location under a path.
    pub fn insert_location(&mut self, path: &str, location: Location)
        requires
            old(self).wf(),
        ensures
            final(self).wf(),
            locs(&final(self).locations) == put(
                locs(&old(self).locations).0,
                locs(&old(self).locations).1,
                path@,
                location@,
            ),
            final(self).asts == old(self).asts,
            final(self).artifacts == old(self).artifacts,
            final(self).languages == old(self).languages,
            final(self).operations == old(self).operations,
            final(self).operations_processed == old(self).operations_processed,
            final(self).should_exit == old(self).should_exit,
    {
        let ghost before = locs(&self.locations);
        proof {
            crate::strmap::lemma_position(self.locations.keys.deep_view(), path@);
        }
        self.locations.insert(copy_str(path), location);
        proof {
            match crate::strmap::position(before.0, path@) {
                Some(k) => {
                    assert(locations_view(self.locations.vals@) =~= before.1.update(k, location@));
                },
                None => {
                    assert(locations_view(self.locations.vals@) =~= before.1.push(location@));
                },
            }
        }
    }

    /// Puts a chain of operations into the graph.
    pub fn insert_op_chain(&mut self, new_ops: Vec<Operation>)
        requires
            old(self).wf(),
        ensures
            final(self).wf(),
            final(self).operations@ == old(self).operations@.with_chain(ops_view(new_ops@)),
            final(self).asts == old(self).asts,
            final(self).artifacts == old(self).artifacts,
            final(self).locations == old(self).locations,
            final(self).languages == old(self).languages,
            final(self).operations_processed == old(self).operations_processed,
            final(self).should_exit == old(self).should_exit,
    {
        self.operations.insert_node_chain(new_ops)
    }

    /// Notes that an operation has been handed to a task.
    pub fn mark_op_processed(&mut self, id: OpId)
        ensures
            ids_view(final(self).operations_processed@) == processed_with(
                ids_view(old(self).operations_processed@),
                id@,
            ),
            final(self).artifacts == old(self).artifacts,
            final(self).asts == old(self).asts,
            final(self).locations == old(self).locations,
            final(self).languages == old(self).languages,
            final(self).operations == old(self).operations,
            final(self).should_exit == old(self).should_exit,
    {
        proof {
            lemma_seek_contains(ids_view(self.operations_processed@), id@);
        }
        if find_id(&self.operations_processed, &id).is_none() {
            let ghost before = ids_view(self.operations_processed@);
            self.operations_processed.push(id);
            assert(ids_view(self.operations_processed@) =~= before.push(id@));
        }
    }

    /// Whether an operation has been handed to a task.
    pub fn is_op_processed(&self, id: &OpId) -> (r: bool)
        ensures
            r == ids_view(self.operations_processed@).contains(id@),
    {
        proof {
            lemma_seek_contains(ids_view(self.operations_processed@), id@);
        }
        find_id(&self.operations_processed, id).is_some()
    }

    /// Loads the languages, unless they are loaded: the built-in ones from
    /// the texts of their rule files, `builtin`, and the language of
    /// `format`, where that is none of them, from the text of its rule
    /// file, `custom`.
    pub fn load_languages(
        &mut self,
        format: &str,
        builtin: &Vec<(String, String)>,
        custom: Option<&str>,
    ) -> (r: Result<(), AppError>)
        requires
            old(self).wf(),
        ensures
            final(self).wf(),
            final(self).operations == old(self).operations,
            final(self).operations_processed == old(self).operations_processed,
            final(self).locations == old(self).locations,
            final(self).artifacts == old(self).artifacts,
            final(self).asts == old(self).asts,
            final(self).should_exit == old(self).should_exit,
            old(self).languages is Some ==> r is Ok && final(self).languages == old(self).languages,
            old(self).languages is None ==> match loaded(
                format@,
                builtin.deep_view(),
                custom.deep_view(),
            ) {
                Ok(m) => {
                    &&& r is Ok
                    &&& final(self).languages is Some
                    &&& langs(&final(self).languages->Some_0) == m
                },
                Err(e) => r matches Err(x) && x@ == e && final(self).languages is None,
            },
    {
        if self.languages.is_some() {
            return Ok(());
        }
        let ghost all = builtin.deep_view();
        let mut languages: StrMap<Lang> = StrMap::new();
        let mut i: usize = 0;
        assert(langs(&languages).0 =~= Seq::<Seq<char>>::empty());
        assert(langs(&languages).1 =~= Seq::<LangV>::empty());
        while i < builtin.len()
            invariant
                i <= builtin.len(),
                languages.wf(),
                *self == *old(self),
                self.wf(),
                self.languages is None,
                all == builtin.deep_view(),
                loaded_from(all, i as int, langs(&languages)) == loaded_from(
                    all,
                    0,
                    (Seq::empty(), Seq::empty()),
                ),
            decreases builtin.len() - i,
        {
            assert(all[i as int] == (builtin[i as int].0@, builtin[i as int].1@));
            let lang = match Lang::new(builtin[i].1.as_str()) {
                Ok(l) => l,
                Err(e) => {
                    return Err(AppError::Lib(e));
                },
            };
            put_lang(&mut languages, copy_str(builtin[i].0.as_str()), lang);
            i += 1;
        }
        if !languages.contains_key(format) {
            let text = match custom {
                Some(t) => t,
                None => {
                    return Err(
                        AppError::ReadError {
                            source: String::new(),
                            path: cat(format, ".lang"),
                        },
                    );
                },
            };
            let lang = match Lang::new(text) {
                Ok(l) => l,
                Err(e) => {
                    return Err(AppError::Lib(e));
                },
            };
            put_lang(&mut languages, copy_str(format), lang);
        }
        self.languages = Some(languages);
        Ok(())
    }

    /// Forgets the operations and which of them were processed; what was
    /// built, read and indexed stays.
    pub fn clear(&mut self)
        requires
            old(self).wf(),
        ensures
            final(self).wf(),
            final(self).operations@ == GraphV::empty(),
            final(self).operations_processed@.len() == 0,
            final(self).asts == old(self).asts,
            final(self).artifacts == old(self).artifacts,
            final(self).locations == old(self).locations,
            final(self).languages == old(self).languages,
            final(self).should_exit == old(self).should_exit,
    {
        self.operations.clear();
        self.operations_processed.clear();
    }
}

/// The languages as a pair of names and models.
pub open spec fn langs(m: &StrMap<Lang>) -> (Seq<Seq<char>>, Seq<LangV>) {
    (m.keys.deep_view(), m.vals@.map_values(|l: Lang| l@))
}

/// The languages after the rule files `builtin[i..]` are read in order,
/// each under its name; the error is that of the first file that cannot
/// be read as rules.
pub open spec fn loaded_from(
    builtin: Seq<(Seq<char>, Seq<char>)>,
    i: int,
    m: (Seq<Seq<char>>, Seq<LangV>),
) -> Result<(Seq<Seq<char>>, Seq<LangV>), AppErrorV>
    decreases builtin.len() - i,
{
    if i < 0 || i >= builtin.len() {
        Ok(m)
    } else {
        match lang_of(builtin[i].1) {
            Ok(l) => loaded_from(builtin, i + 1, put(m.0, m.1, builtin[i].0, l)),
            Err(e) => Err(AppErrorV::Lib(e)),
        }
    }
}

/// The languages of a run: the built-in ones, and the one of the format
/// where that is none of them, which needs the text of its rule file.
pub open spec fn loaded(
    format: Seq<char>,
    builtin: Seq<(Seq<char>, Seq<char>)>,
    custom: Option<Seq<char>>,
) -> Result<(Seq<Seq<char>>, Seq<LangV>), AppErrorV> {
    match loaded_from(builtin, 0, (Seq::empty(), Seq::empty())) {
        Err(e) => Err(e),
        Ok(m) => if crate::strmap::position(m.0, format) is Some {
            Ok(m)
        } else {
            match custom {
                None => Err(AppErrorV::ReadError { path: format + ".lang"@ }),
                Some(text) => match lang_of(text) {
                    Ok(l) => Ok(put(m.0, m.1, format, l)),
                    Err(e) => Err(AppErrorV::Lib(e)),
                },
            }
        },
    }
}

/// Stores a language under its name.
fn put_lang(languages: &mut StrMap<Lang>, name: String, lang: Lang)
    requires
        old(languages).wf(),
    ensures
        final(languages).wf(),
        langs(final(languages)) == put(langs(old(languages)).0, langs(old(languages)).1, name@, lang@),
{
    let ghost before = langs(languages);
    proof {
        crate::strmap::lemma_position(languages.keys.deep_view(), name@);
    }
    languages.insert(name, lang);
    proof {
        match crate::strmap::position(before.0, name@) {
            Some(k) => {
                assert(langs(languages).1 =~= before.1.update(k, lang@));
            },
            None => {
                assert(langs(languages).1 =~= before.1.push(lang@));
            },
        }
    }
}

/// `processed` with `id`, once.
pub open spec fn processed_with(processed: Seq<OpIdV>, id: OpIdV) -> Seq<OpIdV> {
    if processed.contains(id) {
        processed
    } else {
        processed.push(id)
    }
}

/// What is done with an error of a task: in interactive mode it is passed
/// over, unless it is the wish to leave; otherwise it ends the run.
pub open spec fn error_outcome(error: AppErrorV, interactive: bool) -> Option<AppErrorV> {
    if interactive && !(error is Exit) {
        None
    } else {
        Some(error)
    }
}

/// Decides what is done with an error of a task.
pub fn process_error(error: AppError, interactive: bool) -> (r: Result<(), AppError>)
    ensures
        match r {
            Ok(_) => error_outcome(error@, interactive) is None,
            Err(e) => error_outcome(error@, interactive) == Some(e@) && e == error,
        },
{
    let leaving = match &error {
        AppError::Exit(_) => true,
        _ => false,
    };
    if interactive && !leaving {
        Ok(())
    } else {
        Err(error)
    }
}

/// The event that the result of a task stands for.
pub fn result_event(res: Result<bool, AppError>) -> (r: Event)
    ensures
        match res {
            Ok(true) => r is CommandOk,
            Ok(false) => r is TaskOk,
            Err(e) => r == Event::TaskError(e),
        },
{
    match res {
        Ok(true) => Event::CommandOk,
        Ok(false) => Event::TaskOk,
        Err(e) => Event::TaskError(e),
    }
}

/// The source that a path of a command names: what is indexed under it,
/// or else what the text itself names.
pub open spec fn path_source(keys: Seq<Seq<char>>, vals: Seq<LocationV>, path: Seq<char>) -> SourceV {
    match source_at(keys, vals, path) {
        Some(s) => s,
        None => SourceV::of_text(path),
    }
}

/// The sources that the paths `paths[i..]` name, behind `acc`.
pub open spec fn sources_from(
    paths: Seq<Seq<char>>,
    i: int,
    acc: Seq<SourceV>,
    keys: Seq<Seq<char>>,
    vals: Seq<LocationV>,
) -> Seq<SourceV>
    decreases paths.len() - i,
{
    if i < 0 || i >= paths.len() {
        acc
    } else {
        sources_from(paths, i + 1, acc.push(path_source(keys, vals, paths[i])), keys, vals)
    }
}

/// The paths of the sources `sources[i..]` that are paths, behind `acc`.
pub open spec fn disk_paths_from(sources: Seq<SourceV>, i: int, acc: Seq<Seq<char>>) -> Seq<
    Seq<char>,
>
    decreases sources.len() - i,
{
    if i < 0 || i >= sources.len() {
        acc
    } else {
        match sources[i] {
            SourceV::Path(p) => disk_paths_from(sources, i + 1, acc.push(p)),
            SourceV::Url(_) => disk_paths_from(sources, i + 1, acc),
        }
    }
}

/// The sources that the paths of a command name.
pub fn command_sources(paths: &Vec<String>, locs: &LocationMap) -> (r: Vec<Source>)
    requires
        locs.wf(),
    ensures
        sources_view(r@) == sources_from(
            paths.deep_view(),
            0,
            Seq::empty(),
            locs.keys.deep_view(),
            locations_view(locs.vals@),
        ),
{
    let mut out: Vec<Source> = Vec::new();
    let mut i: usize = 0;
    assert(sources_view(out@) =~= Seq::<SourceV>::empty());
    while i < paths.len()
        invariant
            i <= paths.len(),
            locs.wf(),
            sources_from(
                paths.deep_view(),
                i as int,
                sources_view(out@),
                locs.keys.deep_view(),
                locations_view(locs.vals@),
            ) == sources_from(
                paths.deep_view(),
                0,
                Seq::empty(),
                locs.keys.deep_view(),
                locations_view(locs.vals@),
            ),
        decreases paths.len() - i,
    {
        let ghost before = sources_view(out@);
        assert(paths.deep_view()[i as int] == paths[i as int]@);
        let s = match source_of(locs, paths[i].as_str()) {
            Some(s) => s,
            None => Source::from_text(paths[i].as_str()),
        };
        out.push(s);
        assert(sources_view(out@) =~= before.push(s@));
        i += 1;
    }
    out
}

/// The paths of the sources that are paths.
pub fn disk_paths(sources: &Vec<Source>) -> (r: Vec<String>)
    ensures
        r.deep_view() == disk_paths_from(sources_view(sources@), 0, Seq::empty()),
{
    let mut out: Vec<String> = Vec::new();
    let mut i: usize = 0;
    assert(out.deep_view() =~= Seq::<Seq<char>>::empty());
    while i < sources.len()
        invariant
            i <= sources.len(),
            disk_paths_from(sources_view(sources@), i as int, out.deep_view()) == disk_paths_from(
                sources_view(sources@),
                0,
                Seq::empty(),
            ),
        decreases sources.len() - i,
    {
        let ghost before = out.deep_view();
        assert(sources_view(sources@)[i as int] == sources[i as int]@);
        match &sources[i] {
            Source::Path(p) => {
                out.push(copy_str(p.as_str()));
                assert(out.deep_view() =~= before.push(p@));
            },
            Source::Url(_) => {},
        }
        i += 1;
    }
    out
}

/// The chain of operations that a command to build puts into the graph.
pub open spec fn build_chain(cmd: CommandV, sources: Seq<SourceV>) -> Seq<OperationV> {
    match cmd {
        CommandV::Build { headers, splits, paths } => seq![
            OperationV::Gather { cmd, sources, splits: Some(splits) },
            OperationV::Finish,
        ],
        CommandV::Graph { headers, graph_type, paths } => seq![
            OperationV::Gather { cmd, sources, splits: None },
            OperationV::Finish,
            OperationV::Graph { graph_type },
            OperationV::Exec {
                id: graph_type.text() + "_graph.png"@,
                cmd: "plantuml -pipe -tpng"@,
                input: Some(ExecInputV::URI("graph:"@ + graph_type.text())),
                artifact: ExecArtifactV::Stdout("image/png"@),
            },
            OperationV::Write { id: graph_type.text() + "_graph.png"@ },
        ],
        _ => Seq::empty(),
    }
}

/// The chain of operations that a command to build puts into the graph.
pub fn make_build_chain(cmd: &Command, sources: Vec<Source>) -> (r: Vec<Operation>)
    ensures
        ops_view(r@) == build_chain(cmd@, sources_view(sources@)),
{
    let mut c: Vec<Operation> = Vec::new();
    match cmd {
        Command::Build { headers, splits, paths } => {
            let gather = Operation::Gather {
                cmd: cmd.duplicate(),
                sources,
                splits: Some(crate::ast::copy_strings(splits)),
            };
            c.push(gather);
            c.push(Operation::Finish);
            assert(ops_view(c@) =~= seq![gather@, OperationV::Finish]);
        },
        Command::Graph { headers, graph_type, paths } => {
            let name = graph_type.to_text();
            let id = cat(name.as_str(), "_graph.png");
            let gather = Operation::Gather { cmd: cmd.duplicate(), sources, splits: None };
            let exec = Operation::Exec {
                id: copy_str(id.as_str()),
                cmd: copy_str("plantuml -pipe -tpng"),
                input: Some(ExecInput::URI(cat("graph:", name.as_str()))),
                artifact: ExecArtifact::Stdout(copy_str("image/png")),
            };
            let write = Operation::Write { id };
            c.push(gather);
            c.push(Operation::Finish);
            c.push(Operation::Graph { graph_type: *graph_type });
            c.push(exec);
            c.push(write);
            assert(ops_view(c@) =~= seq![
                gather@,
                OperationV::Finish,
                OperationV::Graph { graph_type: *graph_type },
                exec@,
                write@,
            ]);
        },
        _ => {
            assert(ops_view(c@) =~= Seq::<OperationV>::empty());
        },
    }
    c
}

/// The locations after a command to index, and the error where a path
/// of it has no id.
pub struct Indexed {
    pub keys: Seq<Seq<char>>,
    pub vals: Seq<LocationV>,
    pub error: Option<AppErrorV>,
}

/// The locations after the paths `paths[i..]` of a command to index are
/// indexed in order, each under its id. The first path that has no id
/// ends the work with its error; what was indexed before it stays.
pub open spec fn indexed_from(
    paths: Seq<Seq<char>>,
    i: int,
    keys: Seq<Seq<char>>,
    vals: Seq<LocationV>,
) -> Indexed
    decreases paths.len() - i,
{
    if i < 0 || i >= paths.len() {
        Indexed { keys, vals, error: None }
    } else {
        let source = SourceV::of_text(paths[i]);
        match source_id(source) {
            Err(e) => Indexed { keys, vals, error: Some(e) },
            Ok(id) => match crate::strmap::position(keys, id) {
                Some(k) => indexed_from(paths, i + 1, keys, vals.update(k, source.location())),
                None => indexed_from(
                    paths,
                    i + 1,
                    keys.push(id),
                    vals.push(source.location()),
                ),
            },
        }
    }
}

/// What a command asks of the state: the paths whose directories are to
/// be indexed, and the chain that is to go into the graph.
pub struct Asked {
    pub index: Seq<Seq<char>>,
    pub chain: Seq<OperationV>,
}

/// What a command to build, or to draw a graph, asks of the state.
pub open spec fn asked(cmd: CommandV, keys: Seq<Seq<char>>, vals: Seq<LocationV>) -> Result<
    Asked,
    AppErrorV,
> {
    let paths = match cmd {
        CommandV::Build { headers, splits, paths } => paths,
        CommandV::Graph { headers, graph_type, paths } => paths,
        _ => Seq::empty(),
    };
    let sources = sources_from(paths, 0, Seq::empty(), keys, vals);
    match parents_from(disk_paths_from(sources, 0, Seq::empty()), 0, Seq::empty()) {
        Ok(dirs) => Ok(Asked { index: dirs, chain: build_chain(cmd, sources) }),
        Err(e) => Err(e),
    }
}

/// Indexes the paths of a command to index, each under its id.
pub fn index_paths(paths: &Vec<String>, state: &mut State) -> (r: Result<(), AppError>)
    requires
        old(state).wf(),
    ensures
        final(state).wf(),
        final(state).operations == old(state).operations,
        final(state).operations_processed == old(state).operations_processed,
        final(state).asts == old(state).asts,
        final(state).artifacts == old(state).artifacts,
        final(state).languages == old(state).languages,
        final(state).should_exit == old(state).should_exit,
        ({
            let m = indexed_from(
                paths.deep_view(),
                0,
                old(state).locations.keys.deep_view(),
                locations_view(old(state).locations.vals@),
            );
            &&& final(state).locations.keys.deep_view() == m.keys
            &&& locations_view(final(state).locations.vals@) == m.vals
            &&& match r {
                Ok(_) => m.error is None,
                Err(e) => m.error == Some(e@),
            }
        }),
{
    let ghost all = paths.deep_view();
    let mut i: usize = 0;
    while i < paths.len()
        invariant
            i <= paths.len(),
            state.wf(),
            all == paths.deep_view(),
            state.operations == old(state).operations,
            state.operations_processed == old(state).operations_processed,
            state.asts == old(state).asts,
            state.artifacts == old(state).artifacts,
            state.languages == old(state).languages,
            state.should_exit == old(state).should_exit,
            indexed_from(
                all,
                i as int,
                state.locations.keys.deep_view(),
                locations_view(state.locations.vals@),
            ) == indexed_from(
                all,
                0,
                old(state).locations.keys.deep_view(),
                locations_view(old(state).locations.vals@),
            ),
        decreases paths.len() - i,
    {
        assert(all[i as int] == paths[i as int]@);
        let source = Source::from_text(paths[i].as_str());
        let id = match source.path() {
            Ok(id) => id,
            Err(e) => {
                assert(indexed_from(
                    all,
                    i as int,
                    state.locations.keys.deep_view(),
                    locations_view(state.locations.vals@),
                ) == (Indexed {
                    keys: state.locations.keys.deep_view(),
                    vals: locations_view(state.locations.vals@),
                    error: Some(e@),
                }));
                return Err(e);
            },
        };
        let ghost vals0 = locations_view(state.locations.vals@);
        let ghost found = crate::strmap::position(state.locations.keys.deep_view(), id@);
        proof {
            crate::strmap::lemma_position(state.locations.keys.deep_view(), id@);
        }
        let loc = source.into_location();
        state.locations.insert(id, loc);
        proof {
            match found {
                Some(k) => {
                    assert(locations_view(state.locations.vals@) =~= vals0.update(k, loc@));
                },
                None => {
                    assert(locations_view(state.locations.vals@) =~= vals0.push(loc@));
                },
            }
        }
        i += 1;
    }
    Ok(())
}

/// Puts the chain of a command to build, or to draw a graph, into the
/// graph, and returns the directories that are to be indexed first.
pub fn enqueue(cmd: &Command, state: &mut State) -> (r: Result<Vec<String>, AppError>)
    requires
        old(state).wf(),
    ensures
        final(state).wf(),
        final(state).locations == old(state).locations,
        final(state).operations_processed == old(state).operations_processed,
        final(state).asts == old(state).asts,
        final(state).artifacts == old(state).artifacts,
        final(state).languages == old(state).languages,
        final(state).should_exit == old(state).should_exit,
        match asked(
            cmd@,
            old(state).locations.keys.deep_view(),
            locations_view(old(state).locations.vals@),
        ) {
            Ok(a) => {
                &&& r matches Ok(dirs)
                &&& dirs.deep_view() == a.index
                &&& final(state).operations@ == old(state).operations@.with_chain(a.chain)
            },
            Err(e) => {
                &&& r matches Err(x)
                &&& x@ == e
                &&& *final(state) == *old(state)
            },
        },
{
    let empty: Vec<String> = Vec::new();
    assert(empty.deep_view() =~= Seq::<Seq<char>>::empty());
    let paths = match cmd {
        Command::Build { paths, .. } => paths,
        Command::Graph { paths, .. } => paths,
        _ => &empty,
    };
    let sources = command_sources(paths, &state.locations);
    let on_disk = disk_paths(&sources);
    let dirs = match parents(on_disk) {
        Ok(d) => d,
        Err(e) => {
            return Err(e);
        },
    };
    let chain = make_build_chain(cmd, sources);
    state.operations.insert_node_chain(chain);
    Ok(dirs)
}

/// Handles one event. A command to build or to draw a graph puts its
/// chain of operations into the graph and returns the directories that
/// are to be indexed before the chain runs. A command to index puts its
/// paths into the location map. The wish to leave is noted. The error of
/// a task is handed back.
pub fn process_event(event: Event, state: &mut State) -> (r: Result<Option<Vec<String>>, AppError>)
    requires
        old(state).wf(),
    ensures
        final(state).wf(),
        final(state).operations_processed == old(state).operations_processed,
        final(state).asts == old(state).asts,
        final(state).artifacts == old(state).artifacts,
        final(state).languages == old(state).languages,
        match event {
            Event::Command(Ok(cmd)) => match cmd@ {
                CommandV::Exit => {
                    &&& r matches Ok(None)
                    &&& final(state).should_exit
                    &&& final(state).operations == old(state).operations
                    &&& final(state).locations == old(state).locations
                },
                CommandV::Index { paths } => {
                    let m = indexed_from(
                        paths,
                        0,
                        old(state).locations.keys.deep_view(),
                        locations_view(old(state).locations.vals@),
                    );
                    &&& final(state).locations.keys.deep_view() == m.keys
                    &&& locations_view(final(state).locations.vals@) == m.vals
                    &&& final(state).operations == old(state).operations
                    &&& final(state).should_exit == old(state).should_exit
                    &&& match m.error {
                        None => r matches Ok(None),
                        Some(e) => r matches Err(x) && x@ == e,
                    }
                },
                _ => match asked(
                    cmd@,
                    old(state).locations.keys.deep_view(),
                    locations_view(old(state).locations.vals@),
                ) {
                    Ok(a) => {
                        &&& r matches Ok(Some(dirs))
                        &&& dirs.deep_view() == a.index
                        &&& final(state).operations@ == old(state).operations@.with_chain(a.chain)
                        &&& final(state).locations == old(state).locations
                        &&& final(state).should_exit == old(state).should_exit
                    },
                    Err(e) => {
                        &&& r matches Err(x)
                        &&& x@ == e
                        &&& *final(state) == *old(state)
                    },
                },
            },
            Event::TaskError(e) => r == Err::<Option<Vec<String>>, AppError>(e) && *final(state)
                == *old(state),
            _ => r matches Ok(None) && *final(state) == *old(state),
        },
{
    match event {
        Event::Command(Ok(cmd)) => match &cmd {
            Command::Exit => {
                state.should_exit = true;
                Ok(None)
            },
            Command::Index { paths } => match index_paths(paths, state) {
                Ok(_) => Ok(None),
                Err(e) => Err(e),
            },
            _ => match enqueue(&cmd, state) {
                Ok(dirs) => Ok(Some(dirs)),
                Err(e) => Err(e),
            },
        },
        Event::Command(Err(_)) => Ok(None),
        Event::CommandOk => Ok(None),
        Event::TaskOk => Ok(None),
        Event::TaskError(e) => Err(e),
    }
}

/// What the result of a task does to the state.
pub fn process_result(res: Result<bool, AppError>, state: &mut State) -> (r: Result<
    Option<Vec<String>>,
    AppError,
>)
    requires
        old(state).wf(),
    ensures
        final(state).wf(),
        *final(state) == *old(state),
        match res {
            Ok(_) => r matches Ok(None),
            Err(e) => r == Err::<Option<Vec<String>>, AppError>(e),
        },
{
    process_event(result_event(res), state)
}

/// Whether the loop is done: no task is in flight, and the run is not
/// interactive or was asked to leave.
pub fn is_done(tasks_in_flight: usize, interactive: bool, state: &State) -> (r: bool)
    ensures
        r == (tasks_in_flight == 0 && (!interactive || state.should_exit)),
{
    tasks_in_flight == 0 && (!interactive || state.should_exit)
}

/// A task that the scheduler hands out: the operation, and the URI of the
/// first operation that it depends on.
#[derive(Debug)]
pub struct Task {
    pub op: Operation,
    pub dep: Option<String>,
}

/// The index of the first level from `k` on that holds an operation that
/// is not processed; the number of levels where there is none.
pub open spec fn first_open(levels: Seq<Seq<OpIdV>>, processed: Seq<OpIdV>, k: int) -> int
    decreases levels.len() - k,
{
    if k < 0 || k >= levels.len() {
        levels.len() as int
    } else if unprocessed_from(levels[k], processed, 0, Seq::empty()).len() > 0 {
        k
    } else {
        first_open(levels, processed, k + 1)
    }
}

/// The operations of `level[i..]` that are not processed, behind `acc`.
pub open spec fn unprocessed_from(
    level: Seq<OpIdV>,
    processed: Seq<OpIdV>,
    i: int,
    acc: Seq<OpIdV>,
) -> Seq<OpIdV>
    decreases level.len() - i,
{
    if i < 0 || i >= level.len() {
        acc
    } else if processed.contains(level[i]) {
        unprocessed_from(level, processed, i + 1, acc)
    } else {
        unprocessed_from(level, processed, i + 1, acc.push(level[i]))
    }
}

/// The operations that the next pass hands out: those of the first level
/// with an operation that is not processed, without the processed ones.
pub open spec fn next_batch(levels: Seq<Seq<OpIdV>>, processed: Seq<OpIdV>) -> Seq<OpIdV> {
    let f = first_open(levels, processed, 0);
    if f < levels.len() {
        unprocessed_from(levels[f], processed, 0, Seq::empty())
    } else {
        Seq::empty()
    }
}

/// The operations of a level that are not processed.
fn unprocessed(level: &Vec<OpId>, state: &State) -> (r: Vec<OpId>)
    ensures
        ids_view(r@) == unprocessed_from(
            ids_view(level@),
            ids_view(state.operations_processed@),
            0,
            Seq::empty(),
        ),
{
    let mut out: Vec<OpId> = Vec::new();
    let mut i: usize = 0;
    assert(ids_view(out@) =~= Seq::<OpIdV>::empty());
    while i < level.len()
        invariant
            i <= level.len(),
            unprocessed_from(
                ids_view(level@),
                ids_view(state.operations_processed@),
                i as int,
                ids_view(out@),
            ) == unprocessed_from(
                ids_view(level@),
                ids_view(state.operations_processed@),
                0,
                Seq::empty(),
            ),
        decreases level.len() - i,
    {
        let ghost before = ids_view(out@);
        assert(ids_view(level@)[i as int] == level[i as int]@);
        if !state.is_op_processed(&level[i]) {
            out.push(level[i].duplicate());
            assert(ids_view(out@) =~= before.push(level[i as int]@));
        }
        i += 1;
    }
    out
}

/// What is not processed of a level is of the level, or was there before.
proof fn lemma_unprocessed_within(level: Seq<OpIdV>, processed: Seq<OpIdV>, i: int, acc: Seq<OpIdV>)
    requires
        0 <= i,
        forall|j: int| 0 <= j < acc.len() ==> level.contains(#[trigger] acc[j]),
    ensures
        forall|j: int|
            0 <= j < unprocessed_from(level, processed, i, acc).len() ==> level.contains(
                #[trigger] unprocessed_from(level, processed, i, acc)[j],
            ),
    decreases level.len() - i,
{
    let r = unprocessed_from(level, processed, i, acc);
    if i < level.len() {
        if processed.contains(level[i]) {
            lemma_unprocessed_within(level, processed, i + 1, acc);
            assert(r == unprocessed_from(level, processed, i + 1, acc));
        } else {
            let next = acc.push(level[i]);
            assert forall|j: int| 0 <= j < next.len() implies level.contains(
                #[trigger] next[j],
            ) by {
                if j < acc.len() {
                    assert(next[j] == acc[j]);
                } else {
                    assert(level[i] == next[j]);
                }
            }
            lemma_unprocessed_within(level, processed, i + 1, next);
            assert(r == unprocessed_from(level, processed, i + 1, next));
        }
    } else {
        assert(r == acc);
    }
    assert forall|j: int| 0 <= j < r.len() implies level.contains(#[trigger] r[j]) by {}
}

/// `processed` with the ids `batch[i..]`, each once.
pub open spec fn processed_with_all(processed: Seq<OpIdV>, batch: Seq<OpIdV>, i: int) -> Seq<OpIdV>
    decreases batch.len() - i,
{
    if i < 0 || i >= batch.len() {
        processed
    } else {
        processed_with_all(processed_with(processed, batch[i]), batch, i + 1)
    }
}

/// Model of a [`Task`].
pub struct TaskV {
    pub op: OperationV,
    pub dep: Option<Seq<char>>,
}

impl View for Task {
    type V = TaskV;

    open spec fn view(&self) -> TaskV {
        TaskV { op: self.op@, dep: self.dep.deep_view() }
    }
}

/// The models of a list of tasks.
pub open spec fn tasks_view(s: Seq<Task>) -> Seq<TaskV> {
    s.map_values(|t: Task| t@)
}

/// Whether `tasks` is what a pass hands out for the graph `g` with the
/// levels `levels`, and `after` what is processed after it: one task for
/// each operation of the next batch, in order, with the operation as the
/// graph holds it and the URI of the first thing that it depends on.
pub open spec fn is_pass(
    g: GraphV,
    processed: Seq<OpIdV>,
    levels: Seq<Seq<OpIdV>>,
    tasks: Seq<TaskV>,
    after: Seq<OpIdV>,
) -> bool {
    let batch = next_batch(levels, processed);
    &&& is_grouping(g, levels)
    &&& tasks.len() == batch.len()
    &&& forall|i: int|
        0 <= i < tasks.len() ==> {
            &&& (#[trigger] tasks[i]).op.id() == batch[i]
            &&& g.vertex(batch[i]) == Some(tasks[i].op)
            &&& tasks[i].dep == if g.deps(batch[i]).len() > 0 {
                Some(g.deps(batch[i])[0].uri())
            } else {
                None
            }
        }
    &&& after == processed_with_all(processed, batch, 0)
}

/// One pass of the scheduler. The graph is sorted into levels; the levels
/// whose operations are all processed are passed over; the operations of
/// the first other level that are not processed are handed out as tasks,
/// in the order of their ids, and marked as processed.
pub fn process_graph(state: &mut State) -> (r: Vec<Task>)
    requires
        old(state).wf(),
    ensures
        final(state).wf(),
        final(state).operations == old(state).operations,
        final(state).should_exit == old(state).should_exit,
        final(state).locations == old(state).locations,
        final(state).asts == old(state).asts,
        final(state).artifacts == old(state).artifacts,
        final(state).languages == old(state).languages,
        exists|levels: Seq<Seq<OpIdV>>| #[trigger]
            is_pass(
                old(state).operations@,
                ids_view(old(state).operations_processed@),
                levels,
                tasks_view(r@),
                ids_view(final(state).operations_processed@),
            ),
{
    let sorted = match grouped_topological_sort(&state.operations) {
        Ok(s) => s,
        Err(_) => Vec::new(),
    };
    let ghost g = state.operations@;
    let ghost levels = levels_view(sorted@);
    let ghost processed0 = ids_view(state.operations_processed@);
    let mut f: usize = 0;
    let mut batch: Vec<OpId> = Vec::new();
    assert(ids_view(batch@) =~= Seq::<OpIdV>::empty());
    while f < sorted.len() && batch.len() == 0
        invariant
            f <= sorted.len(),
            levels == levels_view(sorted@),
            processed0 == ids_view(state.operations_processed@),
            batch.len() == 0 ==> first_open(levels, processed0, f as int) == first_open(
                levels,
                processed0,
                0,
            ),
            batch.len() > 0 ==> f < sorted.len() && first_open(levels, processed0, 0) == f
                && ids_view(batch@) == unprocessed_from(
                levels[f as int],
                processed0,
                0,
                Seq::empty(),
            ),
        decreases sorted.len() - f + (if batch.len() == 0 {
            1int
        } else {
            0int
        }),
    {
        assert(levels[f as int] == ids_view(sorted[f as int]@));
        let open = unprocessed(&sorted[f], state);
        if open.len() > 0 {
            batch = open;
        } else {
            f += 1;
        }
    }
    assert(ids_view(batch@) =~= next_batch(levels, processed0));
    proof {
        if batch.len() > 0 {
            lemma_unprocessed_within(levels[f as int], processed0, 0, Seq::empty());
        }
    }
    let ghost b = ids_view(batch@);
    let mut tasks: Vec<Task> = Vec::new();
    let mut i: usize = 0;
    while i < batch.len()
        invariant
            i <= batch.len(),
            state.wf(),
            g == state.operations@,
            state.operations == old(state).operations,
            state.should_exit == old(state).should_exit,
            state.locations == old(state).locations,
            state.asts == old(state).asts,
            state.artifacts == old(state).artifacts,
            state.languages == old(state).languages,
            b == ids_view(batch@),
            levels == levels_view(sorted@),
            is_grouping(g, levels),
            f <= sorted.len(),
            batch.len() > 0 ==> f < sorted.len() && forall|j: int|
                0 <= j < b.len() ==> levels[f as int].contains(#[trigger] b[j]),
            tasks.len() == i,
            forall|j: int|
                0 <= j < i ==> {
                    &&& (#[trigger] tasks_view(tasks@)[j]).op.id() == b[j]
                    &&& g.vertex(b[j]) == Some(tasks_view(tasks@)[j].op)
                    &&& tasks_view(tasks@)[j].dep == if g.deps(b[j]).len() > 0 {
                        Some(g.deps(b[j])[0].uri())
                    } else {
                        None
                    }
                },
            processed_with_all(ids_view(state.operations_processed@), b, i as int)
                == processed_with_all(processed0, b, 0),
        decreases batch.len() - i,
    {
        assert(b[i as int] == batch[i as int]@);
        proof {
            // an operation of a level is an operation of the graph
            assert(levels[f as int].contains(b[i as int]));
            assert(levels[f as int].to_set().contains(b[i as int]));
            assert(level(g, f as nat).contains(b[i as int]));
            assert(ready(g, crate::cli::graph_sorter::placed(g, f as nat), b[i as int]));
            lemma_seek_contains(g.ids, b[i as int]);
            lemma_seek(g.ids, b[i as int], 0);
        }
        let op = match state.operations.get(&batch[i]) {
            Some(op) => op.duplicate(),
            None => Operation::Finish,
        };
        proof {
            let k = seek(g.ids, b[i as int], 0);
            assert(g.ops[k].id() == g.ids[k]);
        }
        let dep = match state.operations.get_first_node_dependency(&op) {
            Some(d) => Some(d.uri()),
            None => None,
        };
        let ghost before = tasks_view(tasks@);
        let task = Task { op, dep };
        tasks.push(task);
        proof {
            assert(tasks_view(tasks@) =~= before.push(task@));
            assert forall|j: int| 0 <= j < i + 1 implies {
                &&& (#[trigger] tasks_view(tasks@)[j]).op.id() == b[j]
                &&& g.vertex(b[j]) == Some(tasks_view(tasks@)[j].op)
                &&& tasks_view(tasks@)[j].dep == if g.deps(b[j]).len() > 0 {
                    Some(g.deps(b[j])[0].uri())
                } else {
                    None
                }
            } by {
                if j < i {
                    assert(tasks_view(tasks@)[j] == before[j]);
                }
            }
        }
        state.mark_op_processed(batch[i].duplicate());
        i += 1;
    }
    proof {
        assert(is_pass(
            old(state).operations@,
            processed0,
            levels,
            tasks_view(tasks@),
            ids_view(state.operations_processed@),
        ));
    }
    tasks
}

} // verus!
