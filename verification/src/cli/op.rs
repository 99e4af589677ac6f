//! Operations: the steps of the pipeline, and the ids that name them.
use crate::cli::command::{Command, CommandV, GraphType};
use crate::cli::types::{sources_view, AppError, AppErrorV, Source, SourceV};
use crate::text::{cat, chars_of, copy_str, lex_less, lex_lt, split_once, split_once_at, str_eq};
use crate::types::{ExecArtifact, ExecArtifactV, ExecInput, ExecInputV};
use vstd::prelude::*;

verus! {

/// The kinds of operation.
#[derive(Debug, Eq, PartialEq, Hash, Clone, Copy, Ord, PartialOrd, Structural)]
pub enum Op {
    Gather,
    Exec,
    Load,
    Tangle,
    Parse,
    Preprocess,
    Compile,
    CompilePlaintext,
    Write,
    Copy,
    Graph,
    Finish,
}

impl Op {
    /// The place of the kind in the order of kinds.
    pub open spec fn rank(self) -> int {
        match self {
            Op::Gather => 0,
            Op::Exec => 1,
            Op::Load => 2,
            Op::Tangle => 3,
            Op::Parse => 4,
            Op::Preprocess => 5,
            Op::Compile => 6,
            Op::CompilePlaintext => 7,
            Op::Write => 8,
            Op::Copy => 9,
            Op::Graph => 10,
            Op::Finish => 11,
        }
    }

    /// The scheme of the URIs of operations of this kind.
    pub open spec fn scheme(self) -> Seq<char> {
        match self {
            Op::Gather => "gather"@,
            Op::Exec => "exec"@,
            Op::Load => "file"@,
            Op::Tangle => "tangle"@,
            Op::Parse => "ast"@,
            Op::Preprocess => "parse"@,
            Op::CompilePlaintext => "compileplain"@,
            Op::Compile => "compile"@,
            Op::Write => "write"@,
            Op::Copy => "copy"@,
            Op::Graph => "graph"@,
            Op::Finish => "finish"@,
        }
    }

    /// The place of the kind in the order of kinds.
    pub fn rank_of(self) -> (r: u8)
        ensures
            r == self.rank(),
    {
        match self {
            Op::Gather => 0,
            Op::Exec => 1,
            Op::Load => 2,
            Op::Tangle => 3,
            Op::Parse => 4,
            Op::Preprocess => 5,
            Op::Compile => 6,
            Op::CompilePlaintext => 7,
            Op::Write => 8,
            Op::Copy => 9,
            Op::Graph => 10,
            Op::Finish => 11,
        }
    }

    /// The scheme of the URIs of operations of this kind.
    pub fn scheme_of(self) -> (r: &'static str)
        ensures
            r@ == self.scheme(),
    {
        match self {
            Op::Gather => "gather",
            Op::Exec => "exec",
            Op::Load => "file",
            Op::Tangle => "tangle",
            Op::Parse => "ast",
            Op::Preprocess => "parse",
            Op::CompilePlaintext => "compileplain",
            Op::Compile => "compile",
            Op::Write => "write",
            Op::Copy => "copy",
            Op::Graph => "graph",
            Op::Finish => "finish",
        }
    }
}

/// One step of the pipeline.
#[derive(Debug, Clone, PartialEq, Eq, PartialOrd, Ord)]
pub enum Operation {
    Gather { cmd: Command, sources: Vec<Source>, splits: Option<Vec<String>> },
    Exec { id: String, cmd: String, input: Option<ExecInput>, artifact: ExecArtifact },
    Load { id: String, source: Source },
    Tangle { id: String, target: String },
    Parse { id: String },
    Preprocess { id: String, headers: Option<String> },
    Compile { id: String },
    CompilePlaintext { id: String, source_uri: String },
    Write { id: String },
    Copy { id: String, source: Source },
    Finish,
    Graph { graph_type: GraphType },
}

/// Model of an [`Operation`].
pub enum OperationV {
    Gather { cmd: CommandV, sources: Seq<SourceV>, splits: Option<Seq<Seq<char>>> },
    Exec { id: Seq<char>, cmd: Seq<char>, input: Option<ExecInputV>, artifact: ExecArtifactV },
    Load { id: Seq<char>, source: SourceV },
    Tangle { id: Seq<char>, target: Seq<char> },
    Parse { id: Seq<char> },
    Preprocess { id: Seq<char>, headers: Option<Seq<char>> },
    Compile { id: Seq<char> },
    CompilePlaintext { id: Seq<char>, source_uri: Seq<char> },
    Write { id: Seq<char> },
    Copy { id: Seq<char>, source: SourceV },
    Finish,
    Graph { graph_type: GraphType },
}

impl View for Operation {
    type V = OperationV;

    open spec fn view(&self) -> OperationV {
        match self {
            Operation::Gather { cmd, sources, splits } => OperationV::Gather {
                cmd: cmd@,
                sources: sources_view(sources@),
                splits: splits.deep_view(),
            },
            Operation::Exec { id, cmd, input, artifact } => OperationV::Exec {
                id: id@,
                cmd: cmd@,
                input: match input {
                    Some(i) => Some(i@),
                    None => None,
                },
                artifact: artifact@,
            },
            Operation::Load { id, source } => OperationV::Load { id: id@, source: source@ },
            Operation::Tangle { id, target } => OperationV::Tangle { id: id@, target: target@ },
            Operation::Parse { id } => OperationV::Parse { id: id@ },
            Operation::Preprocess { id, headers } => OperationV::Preprocess {
                id: id@,
                headers: headers.deep_view(),
            },
            Operation::Compile { id } => OperationV::Compile { id: id@ },
            Operation::CompilePlaintext { id, source_uri } => OperationV::CompilePlaintext {
                id: id@,
                source_uri: source_uri@,
            },
            Operation::Write { id } => OperationV::Write { id: id@ },
            Operation::Copy { id, source } => OperationV::Copy { id: id@, source: source@ },
            Operation::Finish => OperationV::Finish,
            Operation::Graph { graph_type } => OperationV::Graph { graph_type: *graph_type },
        }
    }
}

impl OperationV {
    /// The kind of the operation.
    pub open spec fn op(self) -> Op {
        match self {
            OperationV::Gather { .. } => Op::Gather,
            OperationV::Exec { .. } => Op::Exec,
            OperationV::Load { .. } => Op::Load,
            OperationV::Tangle { .. } => Op::Tangle,
            OperationV::Parse { .. } => Op::Parse,
            OperationV::Preprocess { .. } => Op::Preprocess,
            OperationV::Compile { .. } => Op::Compile,
            OperationV::CompilePlaintext { .. } => Op::CompilePlaintext,
            OperationV::Write { .. } => Op::Write,
            OperationV::Copy { .. } => Op::Copy,
            OperationV::Graph { .. } => Op::Graph,
            OperationV::Finish => Op::Finish,
        }
    }

    /// The id that names the operation: its kind with its own id, and
    /// for the operations of which there is one, a fixed one.
    pub open spec fn id(self) -> OpIdV {
        match self {
            OperationV::Gather { .. } => OpIdV::gather(),
            OperationV::Exec { id, .. } => OpIdV { op: Op::Exec, id },
            OperationV::Load { id, .. } => OpIdV { op: Op::Load, id },
            OperationV::Tangle { id, .. } => OpIdV { op: Op::Tangle, id },
            OperationV::Parse { id } => OpIdV { op: Op::Parse, id },
            OperationV::Preprocess { id, .. } => OpIdV { op: Op::Preprocess, id },
            OperationV::Compile { id } => OpIdV { op: Op::Compile, id },
            OperationV::CompilePlaintext { id, .. } => OpIdV { op: Op::CompilePlaintext, id },
            OperationV::Write { id } => OpIdV { op: Op::Write, id },
            OperationV::Copy { id, .. } => OpIdV { op: Op::Copy, id },
            OperationV::Graph { graph_type } => OpIdV { op: Op::Graph, id: graph_type.text() },
            OperationV::Finish => OpIdV::finish(),
        }
    }

    /// How the operation is named in messages.
    pub open spec fn text(self) -> Seq<char> {
        match self {
            OperationV::Gather { .. } => "Gather"@,
            OperationV::Exec { id, .. } => "Exec "@ + id,
            OperationV::Load { id, .. } => "Load "@ + id,
            OperationV::Tangle { id, .. } => "Tangle "@ + id,
            OperationV::Parse { id } => "Parse "@ + id,
            OperationV::Preprocess { id, .. } => "Preprocess "@ + id,
            OperationV::CompilePlaintext { id, .. } => "Compile plaintext "@ + id,
            OperationV::Compile { id } => "Compile "@ + id,
            OperationV::Write { id } => "Write "@ + id,
            OperationV::Copy { id, .. } => "Copy "@ + id,
            OperationV::Graph { .. } => "Graph"@,
            OperationV::Finish => "Finish"@,
        }
    }
}

/// The models of a list of operations.
pub open spec fn ops_view(s: Seq<Operation>) -> Seq<OperationV> {
    s.map_values(|o: Operation| o@)
}

/// A copy of a list of sources.
pub fn copy_sources(v: &Vec<Source>) -> (r: Vec<Source>)
    ensures
        sources_view(r@) == sources_view(v@),
{
    let mut r: Vec<Source> = Vec::new();
    let mut i: usize = 0;
    while i < v.len()
        invariant
            i <= v.len(),
            sources_view(r@) == sources_view(v@).take(i as int),
        decreases v.len() - i,
    {
        let ghost before = sources_view(r@);
        r.push(v[i].duplicate());
        assert(sources_view(r@) =~= before.push(v[i as int]@));
        assert(sources_view(v@).take(i + 1) =~= sources_view(v@).take(i as int).push(v[i as int]@));
        i += 1;
    }
    assert(sources_view(v@).take(v.len() as int) =~= sources_view(v@));
    r
}

impl Operation {
    /// The kind of the operation.
    pub fn op(&self) -> (r: Op)
        ensures
            r == self@.op(),
    {
        match self {
            Operation::Gather { .. } => Op::Gather,
            Operation::Exec { .. } => Op::Exec,
            Operation::Load { .. } => Op::Load,
            Operation::Tangle { .. } => Op::Tangle,
            Operation::Parse { .. } => Op::Parse,
            Operation::Preprocess { .. } => Op::Preprocess,
            Operation::Compile { .. } => Op::Compile,
            Operation::CompilePlaintext { .. } => Op::CompilePlaintext,
            Operation::Write { .. } => Op::Write,
            Operation::Copy { .. } => Op::Copy,
            Operation::Graph { .. } => Op::Graph,
            Operation::Finish => Op::Finish,
        }
    }

    /// The id that names the operation.
    pub fn op_id(&self) -> (r: OpId)
        ensures
            r@ == self@.id(),
    {
        match self {
            Operation::Gather { .. } => OpId::gather(),
            Operation::Load { id, .. } => OpId(Op::Load, copy_str(id.as_str())),
            Operation::Tangle { id, .. } => OpId(Op::Tangle, copy_str(id.as_str())),
            Operation::Exec { id, .. } => OpId(Op::Exec, copy_str(id.as_str())),
            Operation::Parse { id } => OpId(Op::Parse, copy_str(id.as_str())),
            Operation::Preprocess { id, .. } => OpId(Op::Preprocess, copy_str(id.as_str())),
            Operation::Compile { id } => OpId(Op::Compile, copy_str(id.as_str())),
            Operation::CompilePlaintext { id, .. } => OpId(
                Op::CompilePlaintext,
                copy_str(id.as_str()),
            ),
            Operation::Write { id } => OpId(Op::Write, copy_str(id.as_str())),
            Operation::Copy { id, .. } => OpId(Op::Copy, copy_str(id.as_str())),
            Operation::Graph { graph_type } => OpId::graph(graph_type.to_text().as_str()),
            Operation::Finish => OpId::finish(),
        }
    }

    /// The URI of the operation.
    pub fn uri(&self) -> (r: String)
        ensures
            r@ == self@.id().uri(),
    {
        self.op_id().uri()
    }

    /// The path part of the URI of the operation.
    pub fn uri_path(&self) -> (r: String)
        ensures
            r@ == self@.id().uri_path(),
    {
        self.op_id().uri_path()
    }

    /// How the operation is named in messages.
    pub fn to_text(&self) -> (r: String)
        ensures
            r@ == self@.text(),
    {
        match self {
            Operation::Gather { .. } => copy_str("Gather"),
            Operation::Exec { id, .. } => cat("Exec ", id.as_str()),
            Operation::Load { id, .. } => cat("Load ", id.as_str()),
            Operation::Tangle { id, .. } => cat("Tangle ", id.as_str()),
            Operation::Parse { id } => cat("Parse ", id.as_str()),
            Operation::Preprocess { id, .. } => cat("Preprocess ", id.as_str()),
            Operation::CompilePlaintext { id, .. } => cat("Compile plaintext ", id.as_str()),
            Operation::Compile { id } => cat("Compile ", id.as_str()),
            Operation::Write { id } => cat("Write ", id.as_str()),
            Operation::Copy { id, .. } => cat("Copy ", id.as_str()),
            Operation::Graph { .. } => copy_str("Graph"),
            Operation::Finish => copy_str("Finish"),
        }
    }

    pub fn duplicate(&self) -> (r: Operation)
        ensures
            r@ == self@,
    {
        match self {
            Operation::Gather { cmd, sources, splits } => Operation::Gather {
                cmd: cmd.duplicate(),
                sources: copy_sources(sources),
                splits: match splits {
                    Some(s) => Some(crate::ast::copy_strings(s)),
                    None => None,
                },
            },
            Operation::Exec { id, cmd, input, artifact } => Operation::Exec {
                id: copy_str(id.as_str()),
                cmd: copy_str(cmd.as_str()),
                input: match input {
                    Some(i) => Some(i.duplicate()),
                    None => None,
                },
                artifact: artifact.duplicate(),
            },
            Operation::Load { id, source } => Operation::Load {
                id: copy_str(id.as_str()),
                source: source.duplicate(),
            },
            Operation::Tangle { id, target } => Operation::Tangle {
                id: copy_str(id.as_str()),
                target: copy_str(target.as_str()),
            },
            Operation::Parse { id } => Operation::Parse { id: copy_str(id.as_str()) },
            Operation::Preprocess { id, headers } => Operation::Preprocess {
                id: copy_str(id.as_str()),
                headers: crate::text::copy_opt_str(headers),
            },
            Operation::Compile { id } => Operation::Compile { id: copy_str(id.as_str()) },
            Operation::CompilePlaintext { id, source_uri } => Operation::CompilePlaintext {
                id: copy_str(id.as_str()),
                source_uri: copy_str(source_uri.as_str()),
            },
            Operation::Write { id } => Operation::Write { id: copy_str(id.as_str()) },
            Operation::Copy { id, source } => Operation::Copy {
                id: copy_str(id.as_str()),
                source: source.duplicate(),
            },
            Operation::Finish => Operation::Finish,
            Operation::Graph { graph_type } => Operation::Graph { graph_type: *graph_type },
        }
    }
}

/// The name of an operation: its kind and an id.
#[derive(Debug, Eq, PartialEq, Hash, Ord, PartialOrd, Clone)]
pub struct OpId(pub Op, pub String);

/// Model of an [`OpId`].
pub struct OpIdV {
    pub op: Op,
    pub id: Seq<char>,
}

impl View for OpId {
    type V = OpIdV;

    open spec fn view(&self) -> OpIdV {
        OpIdV { op: self.0, id: self.1@ }
    }
}

/// The text that `base64` makes of a text with its standard alphabet and
/// without padding.
pub uninterp spec fn base64_text(s: Seq<char>) -> Seq<char>;

/// Encodes the bytes of `s` with `base64`'s `STANDARD_NO_PAD` engine,
/// by `Engine::encode`. The result is a function of the text alone.
#[verifier::external_body]
pub(crate) fn base64_nopad(s: &str) -> (r: String)
    ensures
        r@ == base64_text(s@),
{
    base64::Engine::encode(&base64::engine::general_purpose::STANDARD_NO_PAD, s)
}

impl OpIdV {
    pub open spec fn gather() -> OpIdV {
        OpIdV { op: Op::Gather, id: "Gather"@ }
    }

    pub open spec fn finish() -> OpIdV {
        OpIdV { op: Op::Finish, id: "Finish"@ }
    }

    /// The URI of the operation: the scheme of its kind, a colon, and the
    /// id; `gather:` and `finish:` have no id.
    pub open spec fn uri(self) -> Seq<char> {
        self.op.scheme() + ":"@ + self.uri_path()
    }

    /// The path part of the URI.
    pub open spec fn uri_path(self) -> Seq<char> {
        match self.op {
            Op::Finish => Seq::empty(),
            Op::Gather => Seq::empty(),
            _ => self.id,
        }
    }

    /// The URI in base64, fit for an identifier in a graph.
    pub open spec fn uid(self) -> Seq<char> {
        base64_text(self.uri())
    }

    /// Operations that are left out of graphs.
    pub open spec fn is_hidden(self) -> bool {
        self.op == Op::Graph
    }

    /// The order of ids: by kind, and within a kind by id.
    pub open spec fn lt(self, other: OpIdV) -> bool {
        self.op.rank() < other.op.rank() || (self.op == other.op && lex_lt(self.id, other.id))
    }

    /// The id that a URI names; only the schemes `file`, `ast`, `parse`,
    /// `exec` and `copy` are read.
    pub open spec fn parsed(uri: Seq<char>) -> Result<OpIdV, AppErrorV> {
        match split_once(uri, ':') {
            None => Err(AppErrorV::BadUri(uri)),
            Some((schema, path)) => if schema == "file"@ {
                Ok(OpIdV { op: Op::Load, id: path })
            } else if schema == "ast"@ {
                Ok(OpIdV { op: Op::Parse, id: path })
            } else if schema == "parse"@ {
                Ok(OpIdV { op: Op::Preprocess, id: path })
            } else if schema == "exec"@ {
                Ok(OpIdV { op: Op::Exec, id: path })
            } else if schema == "copy"@ {
                Ok(OpIdV { op: Op::Copy, id: path })
            } else {
                Err(AppErrorV::UnknownSchema(schema))
            },
        }
    }
}

impl OpId {
    pub fn gather() -> (r: Self)
        ensures
            r@ == OpIdV::gather(),
    {
        OpId(Op::Gather, copy_str("Gather"))
    }

    pub fn exec(id: &str) -> (r: Self)
        ensures
            r@ == (OpIdV { op: Op::Exec, id: id@ }),
    {
        OpId(Op::Exec, copy_str(id))
    }

    pub fn load(id: &str) -> (r: Self)
        ensures
            r@ == (OpIdV { op: Op::Load, id: id@ }),
    {
        OpId(Op::Load, copy_str(id))
    }

    pub fn parse(id: &str) -> (r: Self)
        ensures
            r@ == (OpIdV { op: Op::Parse, id: id@ }),
    {
        OpId(Op::Parse, copy_str(id))
    }

    pub fn preprocess(id: &str) -> (r: Self)
        ensures
            r@ == (OpIdV { op: Op::Preprocess, id: id@ }),
    {
        OpId(Op::Preprocess, copy_str(id))
    }

    pub fn compile(id: &str) -> (r: Self)
        ensures
            r@ == (OpIdV { op: Op::Compile, id: id@ }),
    {
        OpId(Op::Compile, copy_str(id))
    }

    pub fn copy(id: &str) -> (r: Self)
        ensures
            r@ == (OpIdV { op: Op::Copy, id: id@ }),
    {
        OpId(Op::Copy, copy_str(id))
    }

    pub fn write(id: &str) -> (r: Self)
        ensures
            r@ == (OpIdV { op: Op::Write, id: id@ }),
    {
        OpId(Op::Write, copy_str(id))
    }

    pub fn finish() -> (r: Self)
        ensures
            r@ == OpIdV::finish(),
    {
        OpId(Op::Finish, copy_str("Finish"))
    }

    pub fn graph(id: &str) -> (r: Self)
        ensures
            r@ == (OpIdV { op: Op::Graph, id: id@ }),
    {
        OpId(Op::Graph, copy_str(id))
    }

    /// The URI of the operation.
    pub fn uri(&self) -> (r: String)
        ensures
            r@ == self@.uri(),
    {
        let head = cat(self.0.scheme_of(), ":");
        let path = self.uri_path();
        cat(head.as_str(), path.as_str())
    }

    /// The path part of the URI.
    pub fn uri_path(&self) -> (r: String)
        ensures
            r@ == self@.uri_path(),
    {
        match self.0 {
            Op::Finish | Op::Gather => String::new(),
            _ => copy_str(self.1.as_str()),
        }
    }

    /// The URI in base64, fit for an identifier in a graph.
    pub fn uid(&self) -> (r: String)
        ensures
            r@ == self@.uid(),
    {
        base64_nopad(self.uri().as_str())
    }

    /// Whether the operation is left out of graphs.
    pub fn is_hidden(&self) -> (r: bool)
        ensures
            r == self@.is_hidden(),
    {
        match self.0 {
            Op::Graph => true,
            _ => false,
        }
    }

    /// Whether two ids are the same.
    pub fn same(&self, other: &OpId) -> (r: bool)
        ensures
            r == (self@ == other@),
    {
        self.0.rank_of() == other.0.rank_of() && str_eq(self.1.as_str(), other.1.as_str())
    }

    /// Whether this id comes before `other`.
    pub fn less(&self, other: &OpId) -> (r: bool)
        ensures
            r == self@.lt(other@),
    {
        let a = self.0.rank_of();
        let b = other.0.rank_of();
        if a != b {
            a < b
        } else {
            let x = chars_of(self.1.as_str());
            let y = chars_of(other.1.as_str());
            lex_less(&x, &y)
        }
    }

    pub fn duplicate(&self) -> (r: OpId)
        ensures
            r@ == self@,
    {
        OpId(self.0, copy_str(self.1.as_str()))
    }

    /// The id that a URI names.
    pub fn from_str(other: &str) -> (r: Result<Self, AppError>)
        ensures
            match r {
                Ok(id) => OpIdV::parsed(other@) == Ok::<OpIdV, AppErrorV>(id@),
                Err(e) => OpIdV::parsed(other@) == Err::<OpIdV, AppErrorV>(e@),
            },
    {
        let (schema, path) = match split_once_at(other, ':') {
            Some(p) => p,
            None => {
                return Err(AppError::BadUri(copy_str(other)));
            },
        };
        let op = if str_eq(schema.as_str(), "file") {
            Op::Load
        } else if str_eq(schema.as_str(), "ast") {
            Op::Parse
        } else if str_eq(schema.as_str(), "parse") {
            Op::Preprocess
        } else if str_eq(schema.as_str(), "exec") {
            Op::Exec
        } else if str_eq(schema.as_str(), "copy") {
            Op::Copy
        } else {
            return Err(AppError::UnknownSchema(schema));
        };
        Ok(OpId(op, path))
    }
}

impl Default for OpId {
    fn default() -> (r: Self)
        ensures
            r@ == OpIdV::finish(),
    {
        OpId::finish()
    }
}

/// The models of a list of ids.
pub open spec fn ids_view(s: Seq<OpId>) -> Seq<OpIdV> {
    s.map_values(|i: OpId| i@)
}

/// No id is before itself.
pub proof fn lemma_id_lt_irreflexive(a: OpIdV)
    ensures
        !a.lt(a),
{
    crate::text::lemma_lex_lt_irreflexive(a.id);
}

/// The order of ids is transitive.
pub proof fn lemma_id_lt_transitive(a: OpIdV, b: OpIdV, c: OpIdV)
    requires
        a.lt(b),
        b.lt(c),
    ensures
        a.lt(c),
{
    if a.op == b.op && b.op == c.op {
        crate::text::lemma_lex_lt_transitive(a.id, b.id, c.id);
    }
}

/// Two different ids are ordered one way or the other.
pub proof fn lemma_id_lt_total(a: OpIdV, b: OpIdV)
    ensures
        a.lt(b) || b.lt(a) || a == b,
{
    crate::text::lemma_lex_lt_total(a.id, b.id);
}

} // verus!
