//! What the tasks compute.
use crate::ast::{lemma_children_view, nodes_view, Node, NodeV, Rule};
use crate::cli::command::{Command, CommandV};
use crate::cli::graph::{GraphV, OpGraph};
use crate::cli::graph_sorter::{
    in_order, insert_sorted, lemma_in_order, lemma_sorted_unique, sorted_ids,
};
use crate::cli::op::{ids_view, OpId, OpIdV, Operation, OperationV};
use crate::cli::schedule::{
    full_chain, join_path, joined, locations_view, make_full_chain, Scheduled,
};
use crate::cli::types::{
    artifacts_view, data_url_model, read_data_url, source_id, sources_view, AppError, AppErrorV,
    Artifact, ArtifactMap, ArtifactV, DataUrlFailure, DataUrlV, Output, OutputV, Source, SourceV,
};
use crate::cli::utils::{
    command_parts, into_uri_path_tuple, media_extension, mime_extension, path_id, split_command,
    text_of_bytes,
};
use crate::compiler::{compile as compile_tree, compiled};
use crate::compiler::lang::{Lang, LangV};
use crate::preprocessor::{pre_one, preprocess as preprocess_tree, PreState};
use crate::strmap::{lemma_position, position, StrMap};
use crate::text::{
    cat, chars_of, copy_str, rfind_upto, split_all, split_char, str_eq, string_of_range,
};
use crate::types::{
    deps_view, error_with_path, AstMap, AstV, Dependency, DependencyV, ExecArtifact, ExecArtifactV,
    ExecInput, ExecInputV, LibError, LibErrorPathCtx, LibErrorV, Location, LocationMap, LocationV,
};
use vstd::prelude::*;
use vstd::string::*;

verus! {

/// A map with `value` under `key`: in place where the key is known, at
/// the end where it is new.
pub open spec fn put<T>(keys: Seq<Seq<char>>, vals: Seq<T>, key: Seq<char>, value: T) -> (Seq<
    Seq<char>,
>, Seq<T>) {
    match position(keys, key) {
        Some(i) => (keys, vals.update(i, value)),
        None => (keys.push(key), vals.push(value)),
    }
}

/// The artifacts as a pair of keys and values.
pub open spec fn arts(m: &ArtifactMap) -> (Seq<Seq<char>>, Seq<ArtifactV>) {
    (m.keys.deep_view(), artifacts_view(m.vals@))
}

/// The locations as a pair of keys and values.
pub open spec fn locs(m: &LocationMap) -> (Seq<Seq<char>>, Seq<LocationV>) {
    (m.keys.deep_view(), locations_view(m.vals@))
}

/// The artifact stored under `uri`.
pub open spec fn art_at(m: (Seq<Seq<char>>, Seq<ArtifactV>), uri: Seq<char>) -> Option<ArtifactV> {
    match position(m.0, uri) {
        Some(i) => if i < m.1.len() {
            Some(m.1[i])
        } else {
            None
        },
        None => None,
    }
}

/// Stores an artifact under a URI.
pub fn store(artifacts: &mut ArtifactMap, uri: String, a: Artifact)
    requires
        old(artifacts).wf(),
    ensures
        final(artifacts).wf(),
        arts(final(artifacts)) == put(arts(old(artifacts)).0, arts(old(artifacts)).1, uri@, a@),
{
    let ghost before = arts(artifacts);
    proof {
        lemma_position(artifacts.keys.deep_view(), uri@);
    }
    artifacts.insert(uri, a);
    proof {
        match position(before.0, uri@) {
            Some(i) => {
                assert(artifacts_view(artifacts.vals@) =~= before.1.update(i, a@));
            },
            None => {
                assert(artifacts_view(artifacts.vals@) =~= before.1.push(a@));
            },
        }
    }
}

/// The artifact stored under `uri`.
pub fn artifact<'a>(artifacts: &'a ArtifactMap, uri: &str) -> (r: Option<&'a Artifact>)
    requires
        artifacts.wf(),
    ensures
        match r {
            Some(a) => art_at(arts(artifacts), uri@) == Some(a@),
            None => art_at(arts(artifacts), uri@) is None,
        },
{
    match artifacts.find(uri) {
        Some(i) => {
            assert(artifacts_view(artifacts.vals@)[i as int] == artifacts.vals[i as int]@);
            Some(&artifacts.vals[i])
        },
        None => None,
    }
}

/// The tree of a text: a root over one section over one line for each
/// line of the text.
pub open spec fn lines_tree(content: Seq<char>) -> NodeV {
    NodeV {
        children: Some(
            seq![
                NodeV::section(
                    split_char(content, '\n').map_values(|l: Seq<char>| NodeV::line(l)),
                ),
            ],
        ),
        ..NodeV::empty(Rule::Root)
    }
}

/// The tree of a text.
pub fn lines_root(content: &str) -> (r: Node)
    ensures
        r@ == lines_tree(content@),
{
    let lines = split_all(content, '\n');
    let ghost all = lines.deep_view();
    let mut nodes: Vec<Node> = Vec::new();
    let mut i: usize = 0;
    assert(nodes_view(nodes@) =~= all.take(0).map_values(|l: Seq<char>| NodeV::line(l)));
    while i < lines.len()
        invariant
            i <= lines.len(),
            all == lines.deep_view(),
            nodes_view(nodes@) == all.take(i as int).map_values(|l: Seq<char>| NodeV::line(l)),
        decreases lines.len() - i,
    {
        let ghost before = nodes_view(nodes@);
        let n = Node::new_line(lines[i].as_str());
        nodes.push(n);
        proof {
            assert(all[i as int] == lines[i as int]@);
            assert(nodes_view(nodes@) =~= before.push(n@));
            assert(all.take(i + 1) =~= all.take(i as int).push(all[i as int]));
            assert(all.take(i + 1).map_values(|l: Seq<char>| NodeV::line(l)) =~= before.push(n@));
        }
        i += 1;
    }
    assert(all.take(lines.len() as int) =~= all);
    let mut section = Node::empty(Rule::Section);
    section.children = Some(nodes);
    proof {
        lemma_children_view(section);
    }
    let mut kids: Vec<Node> = Vec::new();
    kids.push(section);
    assert(nodes_view(kids@) =~= seq![section@]);
    let mut root = Node::empty(Rule::Root);
    root.children = Some(kids);
    proof {
        lemma_children_view(root);
    }
    root
}

/// The locations after the files `paths[i..]` are indexed in order, each
/// under its path without a leading `./`.
pub open spec fn indexed(
    paths: Seq<Seq<char>>,
    i: int,
    m: (Seq<Seq<char>>, Seq<LocationV>),
) -> (Seq<Seq<char>>, Seq<LocationV>)
    decreases paths.len() - i,
{
    if i < 0 || i >= paths.len() {
        m
    } else {
        indexed(paths, i + 1, put(m.0, m.1, path_id(paths[i]), LocationV::Path(paths[i])))
    }
}

/// The location that the files `paths[i..]` leave under `key`: that of
/// the last of them with that id.
pub open spec fn last_indexed(paths: Seq<Seq<char>>, i: int, key: Seq<char>) -> Option<LocationV>
    decreases paths.len() - i,
{
    if i < 0 || i >= paths.len() {
        None
    } else {
        match last_indexed(paths, i + 1, key) {
            Some(v) => Some(v),
            None => if path_id(paths[i]) == key {
                Some(LocationV::Path(paths[i]))
            } else {
                None
            },
        }
    }
}

/// What indexing does to a well-formed map: the keys that were there
/// stay where they are, every id that was indexed is a key, and under
/// each key stands what was indexed last under it, or what stood there.
pub proof fn lemma_indexed(paths: Seq<Seq<char>>, i: int, m: (Seq<Seq<char>>, Seq<LocationV>))
    requires
        0 <= i <= paths.len(),
        m.0.len() == m.1.len(),
        m.0.no_duplicates(),
    ensures
        ({
            let r = indexed(paths, i, m);
            &&& r.0.len() == r.1.len()
            &&& r.0.no_duplicates()
            &&& m.0.len() <= r.0.len()
            &&& forall|k: int| 0 <= k < m.0.len() ==> r.0[k] == m.0[k]
            &&& forall|j: int| i <= j < paths.len() ==> r.0.contains(path_id(#[trigger] paths[j]))
            &&& forall|k: int|
                0 <= k < r.0.len() ==> #[trigger] r.1[k] == match last_indexed(paths, i, r.0[k]) {
                    Some(v) => v,
                    None => m.1[k],
                }
            &&& forall|k: int|
                m.0.len() <= k < r.0.len() ==> last_indexed(paths, i, #[trigger] r.0[k]) is Some
            &&& (forall|j: int| i <= j < paths.len() ==> m.0.contains(path_id(#[trigger] paths[j])))
                ==> r.0 == m.0
        }),
    decreases paths.len() - i,
{
    if i < paths.len() {
        let id = path_id(paths[i]);
        let v = LocationV::Path(paths[i]);
        let m1 = put(m.0, m.1, id, v);
        lemma_position(m.0, id);
        let q: int = match position(m.0, id) {
            Some(q) => q,
            None => m.0.len() as int,
        };
        assert(m1.0.len() == m1.1.len());
        assert(m1.0.no_duplicates());
        assert(m1.0[q] == id && m1.1[q] == v);
        lemma_indexed(paths, i + 1, m1);
        let r = indexed(paths, i + 1, m1);
        assert(r == indexed(paths, i, m));
        assert(r.0[q] == id);
        assert forall|j: int| i <= j < paths.len() implies r.0.contains(
            path_id(#[trigger] paths[j]),
        ) by {
            if j == i {
                assert(r.0[q] == id);
            }
        }
        assert forall|k: int| 0 <= k < r.0.len() implies #[trigger] r.1[k] == match last_indexed(
            paths,
            i,
            r.0[k],
        ) {
            Some(v) => v,
            None => m.1[k],
        } by {
            if last_indexed(paths, i + 1, r.0[k]) is None {
                if r.0[k] == id {
                    assert(k == q);
                } else {
                    if k >= m1.0.len() {
                        assert(last_indexed(paths, i + 1, r.0[k]) is Some);
                    }
                    assert(r.0[k] == m1.0[k]);
                    assert(k != q);
                    assert(k < m.0.len());
                }
            }
        }
        assert forall|k: int| m.0.len() <= k < r.0.len() implies last_indexed(
            paths,
            i,
            #[trigger] r.0[k],
        ) is Some by {
            if k < m1.0.len() {
                assert(k == q);
                assert(r.0[k] == id);
            }
        }
        if forall|j: int| i <= j < paths.len() ==> m.0.contains(path_id(#[trigger] paths[j])) {
            assert(m.0.contains(path_id(paths[i])));
            assert(m1.0 == m.0);
            assert forall|j: int| i + 1 <= j < paths.len() implies m1.0.contains(
                path_id(#[trigger] paths[j]),
            ) by {}
        }
    }
}

/// Indexing the same files once more changes nothing.
pub proof fn lemma_index_idempotent(paths: Seq<Seq<char>>, m: (Seq<Seq<char>>, Seq<LocationV>))
    requires
        m.0.len() == m.1.len(),
        m.0.no_duplicates(),
    ensures
        indexed(paths, 0, indexed(paths, 0, m)) == indexed(paths, 0, m),
{
    let once = indexed(paths, 0, m);
    lemma_indexed(paths, 0, m);
    lemma_indexed(paths, 0, once);
    let twice = indexed(paths, 0, once);
    assert(twice.0 == once.0);
    assert(twice.1 =~= once.1) by {
        assert forall|k: int| 0 <= k < once.1.len() implies twice.1[k] == once.1[k] by {
            assert(twice.0[k] == once.0[k]);
        }
    }
}

/// Index the files that a walk found.
pub fn index(paths: Vec<String>, locations: &mut LocationMap) -> (r: Result<bool, AppError>)
    requires
        old(locations).wf(),
    ensures
        final(locations).wf(),
        r == Ok::<bool, AppError>(false),
        locs(final(locations)) == indexed(paths.deep_view(), 0, locs(old(locations))),
{
    let ghost all = paths.deep_view();
    let n = paths.len();
    let mut paths = paths;
    let mut rest: Vec<String> = Vec::new();
    while paths.len() > 0
        invariant
            paths.len() + rest.len() == n,
            n == all.len(),
            forall|j: int| 0 <= j < paths.len() ==> paths[j]@ == all[j],
            forall|j: int| 0 <= j < rest.len() ==> rest[j]@ == all[n - 1 - j],
        decreases paths.len(),
    {
        match paths.pop() {
            Some(p) => {
                rest.push(p);
            },
            None => {},
        }
    }
    let mut i: usize = 0;
    while i < n
        invariant
            i <= n,
            n == all.len(),
            rest.len() == n - i,
            forall|j: int| 0 <= j < rest.len() ==> rest[j]@ == all[n - 1 - j],
            locations.wf(),
            indexed(all, i as int, locs(locations)) == indexed(all, 0, locs(old(locations))),
        decreases n - i,
    {
        let path = match rest.pop() {
            Some(p) => p,
            None => String::new(),
        };
        assert(path@ == all[i as int]);
        let (id, path) = into_uri_path_tuple(path);
        let ghost before = locs(locations);
        proof {
            lemma_position(locations.keys.deep_view(), id@);
        }
        let loc = Location::Path(path);
        locations.insert(id, loc);
        proof {
            match position(before.0, id@) {
                Some(k) => {
                    assert(locations_view(locations.vals@) =~= before.1.update(k, loc@));
                },
                None => {
                    assert(locations_view(locations.vals@) =~= before.1.push(loc@));
                },
            }
        }
        i += 1;
    }
    Ok(false)
}

/// Finish operations
pub fn finish(op: &Operation) -> (r: Result<bool, AppError>)
    ensures
        r == Ok::<bool, AppError>(true),
{
    Ok(true)
}

/// The text of the artifact under `uri`, where it is text.
pub open spec fn text_at(m: (Seq<Seq<char>>, Seq<ArtifactV>), uri: Seq<char>) -> Option<Seq<char>> {
    match art_at(m, uri) {
        Some(ArtifactV::Plaintext(_, text)) => Some(text),
        _ => None,
    }
}

/// The target and the content of a tangle: the text that the operation
/// depends on is to be written to the target. `None` where the operation
/// is no tangle or what it depends on is no text.
pub fn tangle(op: &Operation, dep: &str, artifacts: &ArtifactMap) -> (r: Option<(String, String)>)
    requires
        artifacts.wf(),
    ensures
        r.deep_view() == match (op@, text_at(arts(artifacts), dep@)) {
            (OperationV::Tangle { id, target }, Some(text)) => Some((target, text)),
            _ => None,
        },
{
    match op {
        Operation::Tangle { id, target } => match artifact(artifacts, dep) {
            Some(Artifact::Plaintext(_, text)) => Some(
                (copy_str(target.as_str()), copy_str(text.as_str())),
            ),
            _ => None,
        },
        _ => None,
    }
}

/// The place of the dot that begins the extension of the last segment of
/// `path`, or the length of `path` where that segment has no extension.
pub open spec fn extension_at(path: Seq<char>) -> int {
    let slash = rfind_upto(path, '/', path.len() as int);
    let dot = rfind_upto(path, '.', path.len() as int);
    if dot > slash + 1 {
        dot
    } else {
        path.len() as int
    }
}

/// `path` with the extension `ext` in place of that of its last segment.
/// The last segment is what follows the last `/`, even where that is
/// nothing: `build/dir/` becomes `build/dir/.md`, where `Path` would give
/// `build/dir.md`.
pub open spec fn with_extension(path: Seq<char>, ext: Seq<char>) -> Seq<char> {
    path.take(extension_at(path)) + "."@ + ext
}

/// `path` with the extension `ext` in place of that of its last segment.
pub fn set_extension(path: &str, ext: &str) -> (r: String)
    ensures
        r@ == with_extension(path@, ext@),
{
    let v = chars_of(path);
    let slash: usize = match crate::text::rfind_char(&v, '/') {
        Some(i) => i + 1,
        None => 0,
    };
    proof {
        crate::text::lemma_rfind_upto_bounds(v@, '.', v.len() as int);
        crate::text::lemma_rfind_upto_bounds(v@, '/', v.len() as int);
    }
    let cut: usize = match crate::text::rfind_char(&v, '.') {
        Some(d) => if d > slash {
            d
        } else {
            v.len()
        },
        None => v.len(),
    };
    let stem = string_of_range(&v, 0, cut);
    assert(v@.subrange(0, cut as int) =~= v@.take(cut as int));
    cat(cat(stem.as_str(), ".").as_str(), ext)
}

/// What is to be done with what an operation writes.
#[derive(Debug, PartialEq, Eq)]
pub enum WritePlan {
    /// Print the text.
    StdOut(String),
    /// Log the text under the id.
    Log(String, String),
    /// Write the bytes to the file.
    File(String, Vec<u8>),
    /// Write nothing.
    Nothing,
}

/// Model of a [`WritePlan`].
pub enum WritePlanV {
    StdOut(Seq<char>),
    Log(Seq<char>, Seq<char>),
    File(Seq<char>, Seq<u8>),
    Nothing,
}

impl View for WritePlan {
    type V = WritePlanV;

    open spec fn view(&self) -> WritePlanV {
        match self {
            WritePlan::StdOut(t) => WritePlanV::StdOut(t@),
            WritePlan::Log(i, t) => WritePlanV::Log(i@, t@),
            WritePlan::File(p, b) => WritePlanV::File(p@, b@),
            WritePlan::Nothing => WritePlanV::Nothing,
        }
    }
}

/// The file that the artifact of `id` is written to below `root`: with
/// the extension of its media type where the type has one.
pub open spec fn target_of(root: Seq<char>, id: Seq<char>, media_type: Seq<char>) -> Seq<char> {
    match media_extension(media_type) {
        Some(ext) => with_extension(joined(root, id), ext),
        None => joined(root, id),
    }
}

/// What is to be done with the artifact that a `Write` operation depends
/// on: text goes to standard output or to the log where the output is
/// one of them; text and bytes go to a file below the output directory.
/// `None` where the operation is no `Write` or the artifact is neither.
pub open spec fn write_plan(op: OperationV, a: Option<ArtifactV>, output: OutputV) -> Option<
    WritePlanV,
> {
    match op {
        OperationV::Write { id } => match (a, output) {
            (Some(ArtifactV::Plaintext(_, text)), OutputV::StdOut) => Some(WritePlanV::StdOut(text)),
            (Some(ArtifactV::Plaintext(_, text)), OutputV::StdOutLog) => Some(
                WritePlanV::Log(id, text),
            ),
            (Some(ArtifactV::Plaintext(m, text)), OutputV::Path(root)) => Some(
                WritePlanV::File(target_of(root, id, m), vstd::utf8::encode_utf8(text)),
            ),
            (Some(ArtifactV::Binary(m, bytes)), OutputV::Path(root)) => Some(
                WritePlanV::File(target_of(root, id, m), bytes),
            ),
            (Some(ArtifactV::Binary(_, _)), _) => Some(WritePlanV::Nothing),
            _ => None,
        },
        _ => None,
    }
}

fn target_path(root: &str, id: &str, media_type: &str) -> (r: String)
    ensures
        r@ == target_of(root@, id@, media_type@),
{
    let base = join_path(root, id);
    match mime_extension(media_type) {
        Some(ext) => set_extension(base.as_str(), ext.as_str()),
        None => base,
    }
}

fn copy_bytes(b: &Vec<u8>) -> (r: Vec<u8>)
    ensures
        r@ == b@,
{
    let mut r: Vec<u8> = Vec::new();
    let mut i: usize = 0;
    while i < b.len()
        invariant
            i <= b.len(),
            r@ == b@.take(i as int),
        decreases b.len() - i,
    {
        r.push(b[i]);
        assert(b@.take(i + 1) =~= b@.take(i as int).push(b@[i as int]));
        i += 1;
    }
    assert(b@.take(b.len() as int) =~= b@);
    r
}

/// Decides what is to be done with the artifact that a `Write` operation
/// depends on.
pub fn write(op: &Operation, dep: &str, artifacts: &ArtifactMap, output: &Output) -> (r: Option<
    WritePlan,
>)
    requires
        artifacts.wf(),
    ensures
        match r {
            Some(p) => write_plan(op@, art_at(arts(artifacts), dep@), output@) == Some(p@),
            None => write_plan(op@, art_at(arts(artifacts), dep@), output@) is None,
        },
{
    let id = match op {
        Operation::Write { id } => id,
        _ => {
            return None;
        },
    };
    match artifact(artifacts, dep) {
        Some(Artifact::Plaintext(m, text)) => match output {
            Output::StdOut => Some(WritePlan::StdOut(copy_str(text.as_str()))),
            Output::StdOutLog => Some(
                WritePlan::Log(copy_str(id.as_str()), copy_str(text.as_str())),
            ),
            Output::Path(root) => Some(
                WritePlan::File(
                    target_path(root.as_str(), id.as_str(), m.as_str()),
                    text.as_str().as_bytes_vec(),
                ),
            ),
        },
        Some(Artifact::Binary(m, bytes)) => match output {
            Output::Path(root) => Some(
                WritePlan::File(
                    target_path(root.as_str(), id.as_str(), m.as_str()),
                    copy_bytes(bytes),
                ),
            ),
            _ => Some(WritePlan::Nothing),
        },
        _ => None,
    }
}

/// The source and the target of a copy: a file is copied below the
/// output directory unless it is there already. `None` where nothing is
/// to be copied.
pub open spec fn copy_plan(op: OperationV, output: OutputV) -> Option<(Seq<char>, Seq<char>)> {
    match (op, output) {
        (OperationV::Copy { id, source: SourceV::Path(path) }, OutputV::Path(root)) => if path
            == joined(root, id) {
            None
        } else {
            Some((path, joined(root, id)))
        },
        _ => None,
    }
}

/// Decides what a `Copy` operation copies, and where to.
pub fn copy(op: &Operation, output: &Output) -> (r: Option<(String, String)>)
    ensures
        r.deep_view() == copy_plan(op@, output@),
{
    match (op, output) {
        (Operation::Copy { id, source: Source::Path(path) }, Output::Path(root)) => {
            let target = join_path(root.as_str(), id.as_str());
            if str_eq(path.as_str(), target.as_str()) {
                None
            } else {
                Some((copy_str(path.as_str()), target))
            }
        },
        _ => None,
    }
}

/// The card that stands for an operation in a graph: its path and, in
/// brackets, its scheme, under its URI in base64.
pub open spec fn card(id: OpIdV) -> Seq<char> {
    if id.uri_path().len() == 0 {
        "card \"("@ + id.op.scheme() + ")\" as "@ + id.uid() + "\n"@
    } else {
        "card \""@ + id.uri_path() + "\\n("@ + id.op.scheme() + ")\" as "@ + id.uid() + "\n"@
    }
}

/// The arrows to `target` from those of `edges[j..]` that are not
/// hidden, behind `acc`.
pub open spec fn arrows_from(edges: Seq<OpIdV>, j: int, target: OpIdV, acc: Seq<char>) -> Seq<char>
    decreases edges.len() - j,
{
    if j < 0 || j >= edges.len() {
        acc
    } else if edges[j].is_hidden() {
        arrows_from(edges, j + 1, target, acc)
    } else {
        arrows_from(edges, j + 1, target, acc + edges[j].uid() + " --> "@ + target.uid() + "\n"@)
    }
}

/// The cards and the arrows of the operations that `order[i..]` names in
/// a graph, behind `cards` and `arrows`; operations that draw graphs are
/// left out.
pub open spec fn drawn_from(
    g: GraphV,
    order: Seq<OpIdV>,
    i: int,
    cards: Seq<char>,
    arrows: Seq<char>,
) -> (Seq<char>, Seq<char>)
    decreases order.len() - i,
{
    if i < 0 || i >= order.len() {
        (cards, arrows)
    } else {
        match g.vertex(order[i]) {
            Some(op) => if op is Graph {
                drawn_from(g, order, i + 1, cards, arrows)
            } else {
                drawn_from(
                    g,
                    order,
                    i + 1,
                    cards + card(order[i]),
                    arrows_from(g.deps(order[i]), 0, order[i], arrows),
                )
            },
            None => drawn_from(g, order, i + 1, cards, arrows),
        }
    }
}

/// A graph of operations as PlantUML text: a card for each operation, in
/// the rising order of the ids, and an arrow for each dependency, in the
/// order in which the dependencies of an operation were added. The order
/// in which the operations came into the graph plays no part.
pub open spec fn plantuml(g: GraphV) -> Seq<char> {
    let (cards, arrows) = drawn_from(
        g,
        in_order(g.ids, g.ids.len() as int),
        0,
        Seq::empty(),
        Seq::empty(),
    );
    "@startuml\nskinparam defaultTextAlignment center\n'nodes\n"@ + cards + "'dependencies\n"@
        + arrows + "@enduml"@
}

/// Two graphs that agree on every id draw the same over the same order.
pub proof fn lemma_drawn_same(
    a: GraphV,
    b: GraphV,
    order: Seq<OpIdV>,
    i: int,
    cards: Seq<char>,
    arrows: Seq<char>,
)
    requires
        forall|id: OpIdV| a.vertex(id) == b.vertex(id),
        forall|id: OpIdV| a.deps(id) == b.deps(id),
    ensures
        drawn_from(a, order, i, cards, arrows) == drawn_from(b, order, i, cards, arrows),
    decreases order.len() - i,
{
    if 0 <= i < order.len() {
        match a.vertex(order[i]) {
            Some(op) => if op is Graph {
                lemma_drawn_same(a, b, order, i + 1, cards, arrows);
            } else {
                lemma_drawn_same(
                    a,
                    b,
                    order,
                    i + 1,
                    cards + card(order[i]),
                    arrows_from(a.deps(order[i]), 0, order[i], arrows),
                );
            },
            None => {
                lemma_drawn_same(a, b, order, i + 1, cards, arrows);
            },
        }
    }
}

/// Two graphs that hold the same operations with the same dependencies
/// are drawn as the same text, in whatever order they were filled.
pub proof fn lemma_drawing_fixed(a: GraphV, b: GraphV)
    requires
        a.wf(),
        b.wf(),
        a.ids.to_set() == b.ids.to_set(),
        forall|id: OpIdV| a.vertex(id) == b.vertex(id),
        forall|id: OpIdV| a.deps(id) == b.deps(id),
    ensures
        plantuml(a) == plantuml(b),
{
    lemma_in_order(a.ids, a.ids.len() as int);
    lemma_in_order(b.ids, b.ids.len() as int);
    assert(a.ids.take(a.ids.len() as int) =~= a.ids);
    assert(b.ids.take(b.ids.len() as int) =~= b.ids);
    let order = in_order(a.ids, a.ids.len() as int);
    lemma_sorted_unique(order, in_order(b.ids, b.ids.len() as int));
    lemma_drawn_same(a, b, order, 0, Seq::empty(), Seq::empty());
}

fn draw_card(id: &OpId) -> (r: String)
    ensures
        r@ == card(id@),
{
    let path = id.uri_path();
    let scheme = id.0.scheme_of();
    let uid = id.uid();
    let mut r = String::new();
    proof {
        assert(r@ + "x"@ =~= "x"@);
    }
    if path.as_str().is_empty() {
        r.append("card \"(");
        r.append(scheme);
        r.append(")\" as ");
        r.append(uid.as_str());
        r.append("\n");
        assert(r@ =~= card(id@));
    } else {
        r.append("card \"");
        r.append(path.as_str());
        r.append("\\n(");
        r.append(scheme);
        r.append(")\" as ");
        r.append(uid.as_str());
        r.append("\n");
        assert(r@ =~= card(id@));
    }
    r
}

/// Draws the graph of operations as PlantUML text.
pub fn draw(graph: &OpGraph) -> (r: String)
    requires
        graph.wf(),
    ensures
        r@ == plantuml(graph@),
{
    let ghost g = graph@;
    let mut order: Vec<OpId> = Vec::new();
    let mut n: usize = 0;
    assert(ids_view(order@).to_set() =~= g.ids.take(0).to_set());
    while n < graph.ids.len()
        invariant
            n <= graph.ids.len(),
            graph.wf(),
            g == graph@,
            sorted_ids(ids_view(order@)),
            ids_view(order@).to_set() == g.ids.take(n as int).to_set(),
        decreases graph.ids.len() - n,
    {
        let x = graph.ids[n].duplicate();
        proof {
            assert(g.ids[n as int] == graph.ids[n as int]@);
            let first = g.ids.take(n as int);
            if ids_view(order@).contains(x@) {
                assert(ids_view(order@).to_set().contains(x@));
                assert(first.contains(x@));
                let k = choose|k: int| 0 <= k < first.len() && first[k] == x@;
                assert(g.ids[k] == g.ids[n as int]);
            }
            first.lemma_push_to_set_commute(x@);
            assert(first.push(x@) =~= g.ids.take(n + 1));
        }
        insert_sorted(&mut order, x);
        n += 1;
    }
    proof {
        assert(g.ids.take(g.ids.len() as int) =~= g.ids);
        lemma_in_order(g.ids, g.ids.len() as int);
        lemma_sorted_unique(ids_view(order@), in_order(g.ids, g.ids.len() as int));
    }
    let ghost ord = ids_view(order@);
    let mut cards = String::new();
    let mut arrows = String::new();
    let mut i: usize = 0;
    while i < order.len()
        invariant
            i <= order.len(),
            graph.wf(),
            g == graph@,
            ord == ids_view(order@),
            drawn_from(g, ord, i as int, cards@, arrows@) == drawn_from(
                g,
                ord,
                0,
                Seq::empty(),
                Seq::empty(),
            ),
        decreases order.len() - i,
    {
        assert(ord[i as int] == order[i as int]@);
        let target = &order[i];
        let shown = match graph.get(target) {
            Some(Operation::Graph { .. }) => false,
            Some(_) => true,
            None => false,
        };
        if shown {
            let c = draw_card(target);
            cards.append(c.as_str());
            let edges = graph.get_dependencies(target);
            let target_uid = target.uid();
            let ghost es = ids_view(edges@);
            let ghost goal = arrows_from(es, 0, target@, arrows@);
            let mut j: usize = 0;
            while j < edges.len()
                invariant
                    j <= edges.len(),
                    es == ids_view(edges@),
                    target_uid@ == target@.uid(),
                    arrows_from(es, j as int, target@, arrows@) == goal,
                decreases edges.len() - j,
            {
                assert(es[j as int] == edges[j as int]@);
                if !edges[j].is_hidden() {
                    let ghost before = arrows@;
                    arrows.append(edges[j].uid().as_str());
                    arrows.append(" --> ");
                    arrows.append(target_uid.as_str());
                    arrows.append("\n");
                    assert(arrows@ =~= before + es[j as int].uid() + " --> "@ + target@.uid()
                        + "\n"@);
                }
                j += 1;
            }
        }
        i += 1;
    }
    let mut r = String::new();
    r.append("@startuml\nskinparam defaultTextAlignment center\n'nodes\n");
    r.append(cards.as_str());
    r.append("'dependencies\n");
    r.append(arrows.as_str());
    r.append("@enduml");
    assert(r@ =~= plantuml(g));
    r
}

/// Compile operations graph to PlantUML
pub fn graph(op: &Operation, operations: &OpGraph, artifacts: &mut ArtifactMap) -> (r: Result<
    bool,
    AppError,
>)
    requires
        operations.wf(),
        old(artifacts).wf(),
    ensures
        final(artifacts).wf(),
        r == Ok::<bool, AppError>(false),
        arts(final(artifacts)) == put(
            arts(old(artifacts)).0,
            arts(old(artifacts)).1,
            op@.id().uri(),
            ArtifactV::Plaintext("text/plantuml"@, plantuml(operations@)),
        ),
{
    let text = draw(operations);
    store(artifacts, op.uri(), Artifact::Plaintext(copy_str("text/plantuml"), text));
    Ok(false)
}

/// Whether the last segment of a path has the extension `md`: whether
/// the path ends in `.md` behind at least one other character of that
/// segment. Capitals are not folded.
pub open spec fn is_markdown(path: Seq<char>) -> bool {
    ".md"@.is_suffix_of(path) && extension_at(path) + ".md"@.len() == path.len()
}

/// Whether a file that a walk found is gathered: a Markdown file is, and
/// so is a file that the command names.
pub open spec fn gathers(path: Seq<char>, sources: Seq<SourceV>) -> bool {
    is_markdown(path) || sources.contains(SourceV::Path(path))
}

/// The headers that a command gives to the roots of its documents.
pub open spec fn headers_of(cmd: CommandV) -> Option<Seq<char>> {
    match cmd {
        CommandV::Build { headers, splits, paths } => headers,
        CommandV::Graph { headers, graph_type, paths } => headers,
        _ => None,
    }
}

/// The chain that gathering puts into the graph for one source: the
/// pipeline of the source, behind the gathering itself.
pub open spec fn gather_chain(
    op: OperationV,
    id: Seq<char>,
    source: SourceV,
    headers: Option<Seq<char>>,
) -> Seq<OperationV> {
    seq![op] + full_chain(id, source, headers)
}

/// The graph with the chains of the files `files[j..]` that are gathered.
pub open spec fn gathered_files(
    files: Seq<Seq<char>>,
    j: int,
    op: OperationV,
    sources: Seq<SourceV>,
    g: GraphV,
) -> GraphV
    decreases files.len() - j,
{
    if j < 0 || j >= files.len() {
        g
    } else if gathers(files[j], sources) {
        gathered_files(
            files,
            j + 1,
            op,
            sources,
            g.with_chain(
                gather_chain(
                    op,
                    path_id(files[j]),
                    SourceV::Path(files[j]),
                    match op {
                        OperationV::Gather { cmd, .. } => headers_of(cmd),
                        _ => None,
                    },
                ),
            ),
        )
    } else {
        gathered_files(files, j + 1, op, sources, g)
    }
}

/// The graph with the chains of the sources `sources[i..]`: for a path
/// those of the files that the walk found below it, `found[i]`, and for
/// a data URL one chain under the fragment of the URL. A data URL
/// without a fragment ends the work with its error; the chains before it
/// stay.
pub open spec fn gathered(
    sources: Seq<SourceV>,
    found: Seq<Seq<Seq<char>>>,
    i: int,
    op: OperationV,
    g: GraphV,
) -> Scheduled
    decreases sources.len() - i,
{
    if i < 0 || i >= sources.len() {
        Scheduled { graph: g, error: None }
    } else {
        match sources[i] {
            SourceV::Path(_) => gathered(
                sources,
                found,
                i + 1,
                op,
                gathered_files(
                    if i < found.len() {
                        found[i]
                    } else {
                        Seq::empty()
                    },
                    0,
                    op,
                    sources,
                    g,
                ),
            ),
            SourceV::Url(u) => match source_id(sources[i]) {
                Ok(id) => gathered(
                    sources,
                    found,
                    i + 1,
                    op,
                    g.with_chain(
                        gather_chain(
                            op,
                            id,
                            sources[i],
                            match op {
                                OperationV::Gather { cmd, .. } => headers_of(cmd),
                                _ => None,
                            },
                        ),
                    ),
                ),
                Err(e) => Scheduled { graph: g, error: Some(e) },
            },
        }
    }
}

/// Whether the last segment of a path has the extension `md`.
pub fn has_md_extension(path: &str) -> (r: bool)
    ensures
        r == is_markdown(path@),
{
    let v = chars_of(path);
    proof {
        reveal_strlit(".md");
        crate::text::lemma_rfind_upto_bounds(v@, '.', v.len() as int);
        crate::text::lemma_rfind_upto_bounds(v@, '/', v.len() as int);
    }
    if !crate::text::ends_with(path, ".md") {
        return false;
    }
    let slash: usize = match crate::text::rfind_char(&v, '/') {
        Some(i) => i + 1,
        None => 0,
    };
    match crate::text::rfind_char(&v, '.') {
        Some(d) => d > slash && v.len() - d == 3,
        None => false,
    }
}

fn make_gather_chain(op: &Operation, id: &str, source: Source, headers: Option<String>) -> (r: Vec<
    Operation,
>)
    ensures
        crate::cli::op::ops_view(r@) == gather_chain(op@, id@, source@, headers.deep_view()),
{
    let mut c = make_full_chain(id, source, headers);
    let ghost before = crate::cli::op::ops_view(c@);
    let first = op.duplicate();
    c.insert(0, first);
    assert(crate::cli::op::ops_view(c@) =~= seq![first@] + before);
    c
}

/// Gather entry points and schedule dependencies: puts the pipeline of
/// every source of a command into the graph. `found` holds, for each
/// source that is a path, the files that the walk found below it.
pub fn gather(op: &Operation, found: &Vec<Vec<String>>, operations: &mut OpGraph) -> (r: Result<
    bool,
    AppError,
>)
    requires
        old(operations).wf(),
        op@ is Gather,
    ensures
        final(operations).wf(),
        ({
            let m = gathered(op@->Gather_sources, found.deep_view(), 0, op@, old(operations)@);
            &&& final(operations)@ == m.graph
            &&& match m.error {
                None => r == Ok::<bool, AppError>(false),
                Some(e) => r matches Err(x) && x@ == e,
            }
        }),
{
    let (cmd, sources) = match op {
        Operation::Gather { cmd, sources, .. } => (cmd, sources),
        _ => {
            return Ok(false);
        },
    };
    let headers: Option<String> = match cmd {
        Command::Build { headers, .. } => crate::text::copy_opt_str(headers),
        Command::Graph { headers, .. } => crate::text::copy_opt_str(headers),
        _ => None,
    };
    let ghost all = sources_view(sources@);
    let ghost fs = found.deep_view();
    let ghost g0 = operations@;
    let mut i: usize = 0;
    while i < sources.len()
        invariant
            i <= sources.len(),
            operations.wf(),
            op@ is Gather,
            all == sources_view(sources@),
            all == op@->Gather_sources,
            fs == found.deep_view(),
            g0 == old(operations)@,
            headers.deep_view() == headers_of(op@->Gather_cmd),
            gathered(all, fs, i as int, op@, operations@) == gathered(all, fs, 0, op@, g0),
        decreases sources.len() - i,
    {
        assert(all[i as int] == sources[i as int]@);
        match &sources[i] {
            Source::Path(_) => {
                if i < found.len() {
                    let files = &found[i];
                    assert(fs[i as int] == files.deep_view());
                    let ghost g1 = operations@;
                    let mut j: usize = 0;
                    while j < files.len()
                        invariant
                            j <= files.len(),
                            operations.wf(),
                            op@ is Gather,
                            all == sources_view(sources@),
                            headers.deep_view() == headers_of(op@->Gather_cmd),
                            gathered_files(files.deep_view(), j as int, op@, all, operations@)
                                == gathered_files(files.deep_view(), 0, op@, all, g1),
                        decreases files.len() - j,
                    {
                        assert(files.deep_view()[j as int] == files[j as int]@);
                        let path = files[j].as_str();
                        let mut named = false;
                        let mut k: usize = 0;
                        while k < sources.len()
                            invariant
                                k <= sources.len(),
                                all == sources_view(sources@),
                                named == exists|t: int|
                                    0 <= t < k && all[t] == SourceV::Path(path@),
                            decreases sources.len() - k,
                        {
                            assert(all[k as int] == sources[k as int]@);
                            if sources[k].is_path(path) {
                                named = true;
                            }
                            k += 1;
                        }
                        assert(named == all.contains(SourceV::Path(path@)));
                        if has_md_extension(path) || named {
                            let (id, p) = into_uri_path_tuple(copy_str(path));
                            let chain = make_gather_chain(
                                op,
                                id.as_str(),
                                Source::Path(p),
                                crate::text::copy_opt_str(&headers),
                            );
                            operations.insert_node_chain(chain);
                        }
                        j += 1;
                    }
                }
            },
            Source::Url(u) => {
                let ghost g1 = operations@;
                let id = match sources[i].path() {
                    Ok(id) => id,
                    Err(e) => {
                        assert(gathered(all, fs, i as int, op@, g1) == (Scheduled {
                            graph: g1,
                            error: Some(e@),
                        }));
                        return Err(e);
                    },
                };
                let chain = make_gather_chain(
                    op,
                    id.as_str(),
                    sources[i].duplicate(),
                    crate::text::copy_opt_str(&headers),
                );
                operations.insert_node_chain(chain);
            },
        }
        i += 1;
    }
    Ok(false)
}

/// What an `Exec` operation feeds to its command: its own text unless
/// that is empty, or the text of the artifact that it names.
pub open spec fn input_of(op: OperationV, m: (Seq<Seq<char>>, Seq<ArtifactV>)) -> Option<Seq<char>> {
    match op {
        OperationV::Exec { input: Some(ExecInputV::String(text)), .. } => if text.len() == 0 {
            None
        } else {
            Some(text)
        },
        OperationV::Exec { input: Some(ExecInputV::URI(uri)), .. } => text_at(m, uri),
        _ => None,
    }
}

/// What an `Exec` operation feeds to its command.
pub fn exec_input(op: &Operation, artifacts: &ArtifactMap) -> (r: Option<String>)
    requires
        artifacts.wf(),
    ensures
        r.deep_view() == input_of(op@, arts(artifacts)),
{
    match op {
        Operation::Exec { input: Some(ExecInput::String(text)), .. } => {
            if text.as_str().is_empty() {
                None
            } else {
                Some(copy_str(text.as_str()))
            }
        },
        Operation::Exec { input: Some(ExecInput::URI(uri)), .. } => match artifact(
            artifacts,
            uri.as_str(),
        ) {
            Some(Artifact::Plaintext(_, text)) => Some(copy_str(text.as_str())),
            _ => None,
        },
        _ => None,
    }
}

/// The artifact that bytes make: text where they are UTF-8.
pub open spec fn bytes_artifact(media_type: Seq<char>, bytes: Seq<u8>) -> ArtifactV {
    if vstd::utf8::valid_utf8(bytes) {
        ArtifactV::Plaintext(media_type, vstd::utf8::decode_utf8(bytes))
    } else {
        ArtifactV::Binary(media_type, bytes)
    }
}

/// The artifact that bytes make.
pub fn artifact_of_bytes(media_type: String, bytes: Vec<u8>) -> (r: Artifact)
    ensures
        r@ == bytes_artifact(media_type@, bytes@),
{
    match text_of_bytes(bytes) {
        Ok(text) => Artifact::Plaintext(media_type, text),
        Err(b) => Artifact::Binary(media_type, b),
    }
}

/// The AST map with the tree of an artifact under `uri`, where the
/// artifact is text.
pub open spec fn with_tree(asts: AstV, uri: Seq<char>, a: ArtifactV) -> AstV {
    match a {
        ArtifactV::Plaintext(_, text) => asts.with_node(uri, lines_tree(text)),
        _ => asts,
    }
}

fn store_tree(asts: &mut AstMap, uri: String, a: &Artifact)
    requires
        old(asts).wf(),
    ensures
        final(asts).wf(),
        final(asts)@ == with_tree(old(asts)@, uri@, a@),
{
    match a {
        Artifact::Plaintext(_, text) => {
            asts.insert(uri, lines_root(text.as_str()));
        },
        _ => {},
    }
}

/// The error of a command that ended with a code other than zero.
pub open spec fn exec_failure(op: OperationV, code: Option<i32>) -> Option<AppErrorV> {
    match (op, code) {
        (OperationV::Exec { cmd, .. }, Some(c)) => if c != 0 {
            Some(AppErrorV::ExecutionExited { program: command_parts(cmd).0, code: c })
        } else {
            None
        },
        _ => None,
    }
}

/// What a command that ended well leaves: the artifact of the operation,
/// and the trees of what it wrote.
pub struct Executed {
    pub main: ArtifactV,
    pub asts: AstV,
}

/// What a command that ended well leaves. Its output is text where it
/// is UTF-8. The artifact of the operation is that output, or the path
/// that the operation names. The AST map gets the trees of the artifact,
/// of the output under `exec:stdout:` and of the error output under
/// `exec:stderr:`, each where it is text.
pub open spec fn executed(op: OperationV, stdout: Seq<u8>, stderr: Seq<u8>, asts: AstV) -> Executed {
    let id = op->Exec_id;
    let out = match op->Exec_artifact {
        ExecArtifactV::Stdout(m) => bytes_artifact(m, stdout),
        ExecArtifactV::Path(_) => bytes_artifact("text/plain"@, stdout),
    };
    let err = if vstd::utf8::valid_utf8(stderr) {
        ArtifactV::Plaintext("text/plain"@, vstd::utf8::decode_utf8(stderr))
    } else {
        ArtifactV::Binary("application/octet-stream"@, stderr)
    };
    let main = match op->Exec_artifact {
        ExecArtifactV::Stdout(_) => out,
        ExecArtifactV::Path(p) => ArtifactV::Path(p),
    };
    Executed {
        main,
        asts: with_tree(
            with_tree(with_tree(asts, "exec:"@ + id, main), "exec:stdout:"@ + id, out),
            "exec:stderr:"@ + id,
            err,
        ),
    }
}

fn duplicate_artifact(a: &Artifact) -> (r: Artifact)
    ensures
        r@ == a@,
{
    match a {
        Artifact::Path(p) => Artifact::Path(copy_str(p.as_str())),
        Artifact::Plaintext(m, t) => Artifact::Plaintext(copy_str(m.as_str()), copy_str(t.as_str())),
        Artifact::Binary(m, b) => Artifact::Binary(copy_str(m.as_str()), copy_bytes(b)),
        Artifact::Ast(n) => Artifact::Ast(n.duplicate()),
        Artifact::AstPointer(s) => Artifact::AstPointer(*s),
    }
}

/// Takes up what a command left. A command that ended with a code other
/// than zero is an error, and nothing is stored for it.
pub fn exec(
    op: &Operation,
    code: Option<i32>,
    stdout: Vec<u8>,
    stderr: Vec<u8>,
    asts: &mut AstMap,
    artifacts: &mut ArtifactMap,
) -> (r: Result<bool, AppError>)
    requires
        op@ is Exec,
        old(asts).wf(),
        old(artifacts).wf(),
    ensures
        final(asts).wf(),
        final(artifacts).wf(),
        match exec_failure(op@, code) {
            Some(e) => {
                &&& r matches Err(x)
                &&& x@ == e
                &&& *final(asts) == *old(asts)
                &&& *final(artifacts) == *old(artifacts)
            },
            None => {
                &&& r == Ok::<bool, AppError>(false)
                &&& final(asts)@ == executed(op@, stdout@, stderr@, old(asts)@).asts
                &&& arts(final(artifacts)) == put(
                    arts(old(artifacts)).0,
                    arts(old(artifacts)).1,
                    op@.id().uri(),
                    executed(op@, stdout@, stderr@, old(asts)@).main,
                )
            },
        },
{
    let (id, cmd, kind) = match op {
        Operation::Exec { id, cmd, artifact, .. } => (id, cmd, artifact),
        _ => {
            return Ok(false);
        },
    };
    match code {
        Some(c) => {
            if c != 0 {
                let (program, _) = split_command(cmd.as_str());
                return Err(AppError::ExecutionExited { program, code: c });
            }
        },
        None => {},
    }
    let out = match kind {
        ExecArtifact::Stdout(m) => artifact_of_bytes(copy_str(m.as_str()), stdout),
        ExecArtifact::Path(_) => artifact_of_bytes(copy_str("text/plain"), stdout),
    };
    let err = match text_of_bytes(stderr) {
        Ok(text) => Artifact::Plaintext(copy_str("text/plain"), text),
        Err(b) => Artifact::Binary(copy_str("application/octet-stream"), b),
    };
    let main = match kind {
        ExecArtifact::Stdout(_) => duplicate_artifact(&out),
        ExecArtifact::Path(p) => Artifact::Path(copy_str(p.as_str())),
    };
    store_tree(asts, cat("exec:", id.as_str()), &main);
    store_tree(asts, cat("exec:stdout:", id.as_str()), &out);
    store_tree(asts, cat("exec:stderr:", id.as_str()), &err);
    proof {
        reveal_strlit("exec");
        reveal_strlit(":");
        reveal_strlit("exec:");
        assert(op@.id().uri() =~= "exec:"@ + id@);
    }
    store(artifacts, op.uri(), main);
    Ok(false)
}

/// What was read of a file.
#[derive(Debug)]
pub enum Loaded {
    Text(String),
    Bytes(Vec<u8>),
}

/// Model of a [`Loaded`].
pub enum LoadedV {
    Text(Seq<char>),
    Bytes(Seq<u8>),
}

impl View for Loaded {
    type V = LoadedV;

    open spec fn view(&self) -> LoadedV {
        match self {
            Loaded::Text(t) => LoadedV::Text(t@),
            Loaded::Bytes(b) => LoadedV::Bytes(b@),
        }
    }
}

/// The artifact of a source. A file gives what was read of it: plain
/// text, or bytes. A data URL gives its body under its media type: as
/// text where the type is a text type, which fails where the body is no
/// UTF-8, and as bytes otherwise.
pub open spec fn loaded_artifact(source: SourceV, read: Option<LoadedV>) -> Result<
    ArtifactV,
    AppErrorV,
> {
    match source {
        SourceV::Path(p) => match read {
            Some(LoadedV::Text(t)) => Ok(ArtifactV::Plaintext("text/plain"@, t)),
            Some(LoadedV::Bytes(b)) => Ok(ArtifactV::Binary("application/octet-stream"@, b)),
            None => Err(AppErrorV::ReadError { path: p }),
        },
        SourceV::Url(u) => match data_url_model(u) {
            DataUrlV::NotUrl => Err(AppErrorV::BadDataUrl),
            DataUrlV::NotBase64 => Err(AppErrorV::BadDataUrlBase64),
            DataUrlV::Parts { kind, media_type, body, fragment } => if kind == "text"@ {
                if vstd::utf8::valid_utf8(body) {
                    Ok(ArtifactV::Plaintext(media_type, vstd::utf8::decode_utf8(body)))
                } else {
                    Err(AppErrorV::BadUrl(u))
                }
            } else {
                Ok(ArtifactV::Binary(media_type, body))
            },
        },
    }
}

/// Takes up a source: stores its artifact under the URI of the
/// operation, and with it, for text, its tree. `read` is what was read
/// of the file of a path source.
pub fn load(op: &Operation, read: Option<Loaded>, asts: &mut AstMap, artifacts: &mut ArtifactMap) -> (r:
    Result<bool, AppError>)
    requires
        op@ is Load,
        old(asts).wf(),
        old(artifacts).wf(),
    ensures
        final(asts).wf(),
        final(artifacts).wf(),
        match loaded_artifact(
            op@->Load_source,
            match read {
                Some(l) => Some(l@),
                None => None,
            },
        ) {
            Ok(a) => {
                &&& r == Ok::<bool, AppError>(false)
                &&& final(asts)@ == with_tree(old(asts)@, op@.id().uri(), a)
                &&& arts(final(artifacts)) == put(
                    arts(old(artifacts)).0,
                    arts(old(artifacts)).1,
                    op@.id().uri(),
                    a,
                )
            },
            Err(e) => {
                &&& r matches Err(x)
                &&& x@ == e
                &&& *final(asts) == *old(asts)
                &&& *final(artifacts) == *old(artifacts)
            },
        },
{
    let source = match op {
        Operation::Load { source, .. } => source,
        _ => {
            return Ok(false);
        },
    };
    let a = match source {
        Source::Path(p) => match read {
            Some(Loaded::Text(t)) => Artifact::Plaintext(copy_str("text/plain"), t),
            Some(Loaded::Bytes(b)) => Artifact::Binary(copy_str("application/octet-stream"), b),
            None => {
                return Err(
                    AppError::ReadError { source: String::new(), path: copy_str(p.as_str()) },
                );
            },
        },
        Source::Url(u) => match read_data_url(u.as_str()) {
            Err(DataUrlFailure::Url(m)) => {
                return Err(AppError::BadDataUrl(m));
            },
            Err(DataUrlFailure::Base64(m)) => {
                return Err(AppError::BadDataUrlBase64(m));
            },
            Ok(parts) => {
                if str_eq(parts.kind.as_str(), "text") {
                    match text_of_bytes(parts.body) {
                        Ok(text) => Artifact::Plaintext(parts.media_type, text),
                        Err(_) => {
                            return Err(AppError::BadUrl(copy_str(u.as_str())));
                        },
                    }
                } else {
                    Artifact::Binary(parts.media_type, parts.body)
                }
            },
        },
    };
    store_tree(asts, op.uri(), &a);
    store(artifacts, op.uri(), a);
    Ok(false)
}

/// The text that a `Parse` operation is to parse: that of the artifact
/// that it depends on.
pub fn parse_input(dep: &str, artifacts: &ArtifactMap) -> (r: Option<String>)
    requires
        artifacts.wf(),
    ensures
        r.deep_view() == text_at(arts(artifacts), dep@),
{
    match artifact(artifacts, dep) {
        Some(Artifact::Plaintext(_, text)) => Some(copy_str(text.as_str())),
        _ => None,
    }
}

/// Takes up what the parser made of a source: stores the tree under the
/// URI of the operation, or hands back the parser's error with the id of
/// the operation as its path.
pub fn parse(op: &Operation, parsed: Result<Node, LibError>, artifacts: &mut ArtifactMap) -> (r:
    Result<bool, AppError>)
    requires
        old(artifacts).wf(),
    ensures
        final(artifacts).wf(),
        match parsed {
            Ok(ast) => {
                &&& r == Ok::<bool, AppError>(false)
                &&& arts(final(artifacts)) == put(
                    arts(old(artifacts)).0,
                    arts(old(artifacts)).1,
                    op@.id().uri(),
                    ArtifactV::Ast(ast@),
                )
            },
            Err(e) => {
                &&& r matches Err(x)
                &&& x@ == AppErrorV::Lib(error_with_path(e@, op@.id().uri_path()))
                &&& *final(artifacts) == *old(artifacts)
            },
        },
{
    match parsed.with_path(op.uri_path().as_str()) {
        Ok(ast) => {
            store(artifacts, op.uri(), Artifact::Ast(ast));
            Ok(false)
        },
        Err(e) => Err(AppError::Lib(e)),
    }
}

/// The language of a format.
pub open spec fn lang_at(languages: &StrMap<Lang>, format: Seq<char>) -> Option<LangV> {
    match languages.value_of(format) {
        Some(l) => Some(l@),
        None => None,
    }
}

/// What compiling the artifact under `dep` gives: the text, and the AST
/// map as the rules left it. A tree is compiled as a copy; a pointer is
/// followed by taking its node out of the AST map for the time of the walk.
pub struct CompiledArtifact {
    pub text: Seq<char>,
    pub asts: AstV,
}

/// What compiling an artifact gives.
pub open spec fn compiled_artifact(a: Option<ArtifactV>, asts: AstV, lang: LangV, dep: Seq<char>) -> Result<
    CompiledArtifact,
    AppErrorV,
> {
    match a {
        Some(ArtifactV::Ast(node)) => {
            let c = compiled(node, asts, lang.compile_rules);
            match c.error {
                Some(e) => Err(AppErrorV::Lib(e)),
                None => Ok(CompiledArtifact { text: c.st.out, asts: c.st.asts }),
            }
        },
        Some(ArtifactV::AstPointer(slot)) => if slot >= asts.slots.len() {
            Err(AppErrorV::Lib(LibErrorV::DeadPointer(slot)))
        } else if asts.slots[slot as int] is None {
            Err(AppErrorV::Lib(LibErrorV::PointerCycle(slot)))
        } else {
            let c = compiled(asts.slots[slot as int]->Some_0, asts.locked(slot), lang.compile_rules);
            match c.error {
                Some(e) => Err(AppErrorV::Lib(e)),
                None => Ok(
                    CompiledArtifact { text: c.st.out, asts: c.st.asts.restored(slot, c.nodes[0]) },
                ),
            }
        },
        _ => Err(AppErrorV::FileNotFound(dep)),
    }
}

/// Compiles the artifact under `dep` and stores the text under `uri`.
/// Where that fails, no artifact is stored, and every node of the AST map
/// is in its slot as before; the rules may have changed properties.
pub fn compile_artifact(
    uri: String,
    dep: &str,
    lang: &Lang,
    asts: &mut AstMap,
    artifacts: &mut ArtifactMap,
) -> (r: Result<bool, AppError>)
    requires
        old(asts).wf(),
        old(artifacts).wf(),
    ensures
        final(asts).wf(),
        final(artifacts).wf(),
        crate::compiler::lock_pattern(final(asts)@) == crate::compiler::lock_pattern(old(asts)@),
        match compiled_artifact(art_at(arts(old(artifacts)), dep@), old(asts)@, lang@, dep@) {
            Ok(c) => {
                &&& r == Ok::<bool, AppError>(false)
                &&& final(asts)@ == c.asts
                &&& arts(final(artifacts)) == put(
                    arts(old(artifacts)).0,
                    arts(old(artifacts)).1,
                    uri@,
                    ArtifactV::Plaintext(lang@.media_type, c.text),
                )
            },
            Err(e) => {
                &&& r matches Err(x)
                &&& x@ == e
                &&& *final(artifacts) == *old(artifacts)
            },
        },
{
    let text = match artifact(artifacts, dep) {
        Some(Artifact::Ast(node)) => {
            let mut copy = node.duplicate();
            match compile_tree(&mut copy, asts, lang) {
                Ok(text) => text,
                Err(e) => {
                    return Err(AppError::Lib(e));
                },
            }
        },
        Some(Artifact::AstPointer(slot)) => {
            let slot = *slot;
            if slot >= asts.slots.len() {
                return Err(AppError::Lib(LibError::DeadPointer(slot)));
            }
            let ghost before = asts@;
            let mut node = match asts.take(slot) {
                Some(n) => n,
                None => {
                    return Err(AppError::Lib(LibError::PointerCycle(slot)));
                },
            };
            let ghost locked = asts@;
            let r = compile_tree(&mut node, asts, lang);
            let ghost inner = asts@;
            proof {
                assert(crate::compiler::lock_pattern(inner).len() == inner.slots.len());
                assert(crate::compiler::lock_pattern(locked).len() == locked.slots.len());
                assert(asts@.slots.len() == asts.slots.len());
            }
            // the node goes back to its slot, whatever came of the work
            asts.restore(slot, node);
            proof {
                assert forall|i: int| 0 <= i < before.slots.len() implies
                    crate::compiler::lock_pattern(asts@)[i] == crate::compiler::lock_pattern(
                    before,
                )[i] by {
                    assert(crate::compiler::lock_pattern(inner)[i] == crate::compiler::lock_pattern(
                        locked,
                    )[i]);
                }
                assert(crate::compiler::lock_pattern(asts@) =~= crate::compiler::lock_pattern(
                    before,
                ));
            }
            match r {
                Ok(text) => text,
                Err(e) => {
                    return Err(AppError::Lib(e));
                },
            }
        },
        _ => {
            return Err(AppError::FileNotFound(copy_str(dep)));
        },
    };
    store(artifacts, uri, Artifact::Plaintext(copy_str(lang.media_type.as_str()), text));
    Ok(false)
}

/// Compile AST to string: compiles what the operation depends on by the
/// language of the format, and stores the text under the URI of the
/// operation.
pub fn compile(
    op: &Operation,
    format: &str,
    dep: &str,
    asts: &mut AstMap,
    artifacts: &mut ArtifactMap,
    languages: &StrMap<Lang>,
) -> (r: Result<bool, AppError>)
    requires
        old(asts).wf(),
        old(artifacts).wf(),
        languages.wf(),
    ensures
        final(asts).wf(),
        final(artifacts).wf(),
        crate::compiler::lock_pattern(final(asts)@) == crate::compiler::lock_pattern(old(asts)@),
        r is Err ==> *final(artifacts) == *old(artifacts),
        match lang_at(languages, format@) {
            None => r matches Err(x) && x@ == AppErrorV::UnknownLanguage(format@),
            Some(lang) => match compiled_artifact(
                art_at(arts(old(artifacts)), dep@),
                old(asts)@,
                lang,
                dep@,
            ) {
                Ok(c) => {
                    &&& r == Ok::<bool, AppError>(false)
                    &&& final(asts)@ == c.asts
                    &&& arts(final(artifacts)) == put(
                        arts(old(artifacts)).0,
                        arts(old(artifacts)).1,
                        op@.id().uri(),
                        ArtifactV::Plaintext(lang.media_type, c.text),
                    )
                },
                Err(e) => r matches Err(x) && x@ == e,
            },
        },
{
    let lang = match languages.get(format) {
        Some(l) => l,
        None => {
            return Err(AppError::UnknownLanguage(copy_str(format)));
        },
    };
    compile_artifact(op.uri(), dep, lang, asts, artifacts)
}

/// Compile AST line to string: as `compile`, by the language `plaintext`.
pub fn compile_plaintext(
    op: &Operation,
    dep: &str,
    asts: &mut AstMap,
    artifacts: &mut ArtifactMap,
    languages: &StrMap<Lang>,
) -> (r: Result<bool, AppError>)
    requires
        old(asts).wf(),
        old(artifacts).wf(),
        languages.wf(),
    ensures
        final(asts).wf(),
        final(artifacts).wf(),
        crate::compiler::lock_pattern(final(asts)@) == crate::compiler::lock_pattern(old(asts)@),
        r is Err ==> *final(artifacts) == *old(artifacts),
        match lang_at(languages, "plaintext"@) {
            None => r matches Err(x) && x@ == AppErrorV::UnknownLanguage("plaintext"@),
            Some(lang) => match compiled_artifact(
                art_at(arts(old(artifacts)), dep@),
                old(asts)@,
                lang,
                dep@,
            ) {
                Ok(c) => {
                    &&& r == Ok::<bool, AppError>(false)
                    &&& final(asts)@ == c.asts
                    &&& arts(final(artifacts)) == put(
                        arts(old(artifacts)).0,
                        arts(old(artifacts)).1,
                        op@.id().uri(),
                        ArtifactV::Plaintext(lang.media_type, c.text),
                    )
                },
                Err(e) => r matches Err(x) && x@ == e,
            },
        },
{
    compile(op, "plaintext", dep, asts, artifacts, languages)
}

/// `have` with the words `words[i..]` that are not empty and not there yet.
pub open spec fn headers_with(have: Seq<Seq<char>>, words: Seq<Seq<char>>, i: int) -> Seq<Seq<char>>
    decreases words.len() - i,
{
    if i < 0 || i >= words.len() {
        have
    } else if words[i].len() == 0 || have.contains(words[i]) {
        headers_with(have, words, i + 1)
    } else {
        headers_with(have.push(words[i]), words, i + 1)
    }
}

/// A root with the headers that a command adds: the words of `headers`,
/// which single spaces separate, behind the headers that the root has.
pub open spec fn with_root_headers(node: NodeV, headers: Option<Seq<char>>) -> NodeV {
    match headers {
        None => node,
        Some(h) => NodeV {
            headers: Some(
                headers_with(
                    match node.headers {
                        Some(have) => have,
                        None => Seq::empty(),
                    },
                    split_char(h, ' '),
                    0,
                ),
            ),
            ..node
        },
    }
}

/// Gives a root the headers that a command adds.
pub fn add_root_headers(node: &mut Node, headers: &Option<String>)
    ensures
        final(node)@ == with_root_headers(old(node)@, headers.deep_view()),
{
    proof {
        lemma_children_view(*node);
    }
    match headers {
        None => {},
        Some(h) => {
            let words = split_all(h.as_str(), ' ');
            let mut have: Vec<String> = match node.headers.take() {
                Some(v) => v,
                None => {
                    let v: Vec<String> = Vec::new();
                    assert(v.deep_view() =~= Seq::<Seq<char>>::empty());
                    v
                },
            };
            let ghost start = have.deep_view();
            let mut i: usize = 0;
            while i < words.len()
                invariant
                    i <= words.len(),
                    headers_with(have.deep_view(), words.deep_view(), i as int) == headers_with(
                        start,
                        words.deep_view(),
                        0,
                    ),
                decreases words.len() - i,
            {
                assert(words.deep_view()[i as int] == words[i as int]@);
                proof {
                    lemma_position(have.deep_view(), words[i as int]@);
                }
                if !words[i].as_str().is_empty() && crate::strmap::find_key(
                    &have,
                    words[i].as_str(),
                ).is_none() {
                    let ghost before = have.deep_view();
                    have.push(copy_str(words[i].as_str()));
                    assert(have.deep_view() =~= before.push(words[i as int]@));
                }
                i += 1;
            }
            node.headers = Some(have);
            proof {
                lemma_children_view(*node);
            }
        },
    }
}

/// The artifacts with a pointer for each of the URIs `uris[i..]` that
/// names a slot of the AST map.
pub open spec fn pointers_put(
    uris: Seq<Seq<char>>,
    i: int,
    asts: AstV,
    m: (Seq<Seq<char>>, Seq<ArtifactV>),
) -> (Seq<Seq<char>>, Seq<ArtifactV>)
    decreases uris.len() - i,
{
    if i < 0 || i >= uris.len() {
        m
    } else {
        match asts.slot_of(uris[i]) {
            Some(s) => pointers_put(
                uris,
                i + 1,
                asts,
                put(m.0, m.1, uris[i], ArtifactV::AstPointer(s)),
            ),
            None => pointers_put(uris, i + 1, asts, m),
        }
    }
}

/// What preprocessing leaves.
pub struct Preprocessed {
    pub deps: Seq<DependencyV>,
    pub asts: AstV,
    pub artifacts: (Seq<Seq<char>>, Seq<ArtifactV>),
}

/// What preprocessing the tree under `dep` leaves. A copy of the tree,
/// with the headers of the operation on its root, is preprocessed in the
/// context of the operation's id. The result goes into the AST map under
/// the URI of the operation, and the artifacts get pointers to it and to
/// every node that was moved into the map.
pub open spec fn preprocessed(
    op: OperationV,
    a: Option<ArtifactV>,
    asts: AstV,
    m: (Seq<Seq<char>>, Seq<ArtifactV>),
    lang: LangV,
    keys: Seq<Seq<char>>,
    dep: Seq<char>,
) -> Result<Preprocessed, AppErrorV> {
    match a {
        Some(ArtifactV::Ast(node)) => {
            let w = pre_one(
                with_root_headers(node, op->Preprocess_headers),
                PreState { ctx: crate::compiler::rule::CtxV::empty(), asts, deps: Seq::empty(), new_asts: Seq::empty() },
                crate::preprocessor::PreEnv {
                    locs: keys,
                    context: op->Preprocess_id,
                    rules: lang.preprocess_rules,
                },
                Seq::empty(),
            );
            match w.error {
                Some(e) => Err(AppErrorV::Lib(e)),
                None => {
                    let uri = op.id().uri();
                    let asts2 = w.st.asts.with_node(uri, w.nodes[0]);
                    Ok(
                        Preprocessed {
                            deps: w.st.deps,
                            asts: asts2,
                            artifacts: pointers_put(
                                w.st.new_asts,
                                0,
                                asts2,
                                put(m.0, m.1, uri, ArtifactV::AstPointer(w.st.asts.slot_for(uri))),
                            ),
                        },
                    )
                },
            }
        },
        _ => Err(AppErrorV::FileNotFound(dep)),
    }
}

/// Preprocess AST: preprocesses the tree that the operation depends on
/// and returns the dependencies that were found, which are then to be
/// scheduled. Where that fails, no artifact is stored; the AST map loses
/// no slot and no node in either case.
pub fn preprocess(
    op: &Operation,
    format: &str,
    dep: &str,
    asts: &mut AstMap,
    artifacts: &mut ArtifactMap,
    languages: &StrMap<Lang>,
    locations: &LocationMap,
) -> (r: Result<Vec<Dependency>, AppError>)
    requires
        op@ is Preprocess,
        old(asts).wf(),
        old(artifacts).wf(),
        languages.wf(),
    ensures
        final(asts).wf(),
        final(artifacts).wf(),
        old(asts)@.kept_in(final(asts)@),
        r is Err ==> *final(artifacts) == *old(artifacts),
        match lang_at(languages, format@) {
            None => r matches Err(x) && x@ == AppErrorV::UnknownLanguage(format@),
            Some(lang) => match preprocessed(
                op@,
                art_at(arts(old(artifacts)), dep@),
                old(asts)@,
                arts(old(artifacts)),
                lang,
                locations.keys.deep_view(),
                dep@,
            ) {
                Ok(p) => {
                    &&& r matches Ok(deps)
                    &&& deps_view(deps@) == p.deps
                    &&& final(asts)@ == p.asts
                    &&& arts(final(artifacts)) == p.artifacts
                },
                Err(e) => r matches Err(x) && x@ == e,
            },
        },
{
    let (id, headers) = match op {
        Operation::Preprocess { id, headers } => (id, headers),
        _ => {
            return Ok(Vec::new());
        },
    };
    let lang = match languages.get(format) {
        Some(l) => l,
        None => {
            return Err(AppError::UnknownLanguage(copy_str(format)));
        },
    };
    let mut node = match artifact(artifacts, dep) {
        Some(Artifact::Ast(node)) => node.duplicate(),
        _ => {
            return Err(AppError::FileNotFound(copy_str(dep)));
        },
    };
    add_root_headers(&mut node, headers);
    let (deps, new_asts) = match preprocess_tree(&mut node, asts, locations, id.as_str(), lang) {
        Ok(r) => r,
        Err(e) => {
            return Err(AppError::Lib(e));
        },
    };
    let uri = op.uri();
    let slot = asts.insert(copy_str(uri.as_str()), node);
    store(artifacts, uri, Artifact::AstPointer(slot));
    let ghost m1 = arts(artifacts);
    let mut i: usize = 0;
    while i < new_asts.len()
        invariant
            i <= new_asts.len(),
            asts.wf(),
            artifacts.wf(),
            old(asts)@.kept_in(asts@),
            pointers_put(new_asts.deep_view(), i as int, asts@, arts(artifacts)) == pointers_put(
                new_asts.deep_view(),
                0,
                asts@,
                m1,
            ),
        decreases new_asts.len() - i,
    {
        assert(new_asts.deep_view()[i as int] == new_asts[i as int]@);
        match asts.slot_of(new_asts[i].as_str()) {
            Some(s) => {
                store(artifacts, copy_str(new_asts[i].as_str()), Artifact::AstPointer(s));
            },
            None => {},
        }
        i += 1;
    }
    Ok(deps)
}

} // verus!
