//! The values that the preprocessor and the compiler exchange.
use crate::ast::{Node, NodeV, Rule};
use crate::strmap::{lemma_position, position, StrMap};
use crate::text::str_eq;
use vstd::prelude::*;
use vstd::std_specs::cmp::PartialEqSpecImpl;

verus! {

/// Uniform resource identifier, `scheme:path`.
pub type URI = String;

/// A reference from a node to a slot of the AST map.
#[derive(Debug, Clone, Copy)]
pub struct Pointer(pub usize);

/// Pointers compare equal whatever they point at, so that node equality
/// stays structural.
impl PartialEq for Pointer {
    fn eq(&self, other: &Pointer) -> (r: bool) {
        true
    }
}

impl PartialEqSpecImpl for Pointer {
    open spec fn obeys_eq_spec() -> bool {
        true
    }

    open spec fn eq_spec(&self, other: &Pointer) -> bool {
        true
    }
}

impl Eq for Pointer {

}

/// Where an indexed resource is to be read from.
#[derive(Debug, Clone, PartialEq, Eq, PartialOrd, Ord, Hash)]
pub enum Location {
    Path(String),
    DataURL(String),
}

/// Model of a [`Location`].
pub enum LocationV {
    Path(Seq<char>),
    DataURL(Seq<char>),
}

impl View for Location {
    type V = LocationV;

    open spec fn view(&self) -> LocationV {
        match self {
            Location::Path(p) => LocationV::Path(p@),
            Location::DataURL(u) => LocationV::DataURL(u@),
        }
    }
}

impl Location {
    /// The location of a file on disk.
    pub fn from_path(value: String) -> (r: Self)
        ensures
            r == Location::Path(value),
    {
        Location::Path(value)
    }

    pub fn duplicate(&self) -> (r: Self)
        ensures
            r@ == self@,
    {
        match self {
            Location::Path(p) => Location::Path(p.clone()),
            Location::DataURL(u) => Location::DataURL(u.clone()),
        }
    }
}

/// What an executed command leaves behind.
#[derive(Debug, Clone, PartialEq, Eq, PartialOrd, Ord, Hash)]
pub enum ExecArtifact {
    Stdout(String),
    Path(String),
}

/// Model of an [`ExecArtifact`].
pub enum ExecArtifactV {
    Stdout(Seq<char>),
    Path(Seq<char>),
}

impl View for ExecArtifact {
    type V = ExecArtifactV;

    open spec fn view(&self) -> ExecArtifactV {
        match self {
            ExecArtifact::Stdout(t) => ExecArtifactV::Stdout(t@),
            ExecArtifact::Path(p) => ExecArtifactV::Path(p@),
        }
    }
}

impl ExecArtifact {
    pub fn duplicate(&self) -> (r: Self)
        ensures
            r@ == self@,
    {
        match self {
            ExecArtifact::Stdout(t) => ExecArtifact::Stdout(t.clone()),
            ExecArtifact::Path(p) => ExecArtifact::Path(p.clone()),
        }
    }

    pub fn same(&self, other: &ExecArtifact) -> (r: bool)
        ensures
            r == (self@ == other@),
    {
        match (self, other) {
            (ExecArtifact::Stdout(a), ExecArtifact::Stdout(b)) => str_eq(a.as_str(), b.as_str()),
            (ExecArtifact::Path(a), ExecArtifact::Path(b)) => str_eq(a.as_str(), b.as_str()),
            _ => false,
        }
    }
}

/// What is fed to an executed command.
#[derive(Debug, Clone, PartialEq, Eq, PartialOrd, Ord)]
pub enum ExecInput {
    String(String),
    URI(URI),
}

/// Model of an [`ExecInput`].
pub enum ExecInputV {
    String(Seq<char>),
    URI(Seq<char>),
}

impl View for ExecInput {
    type V = ExecInputV;

    open spec fn view(&self) -> ExecInputV {
        match self {
            ExecInput::String(s) => ExecInputV::String(s@),
            ExecInput::URI(u) => ExecInputV::URI(u@),
        }
    }
}

impl ExecInput {
    pub fn duplicate(&self) -> (r: Self)
        ensures
            r@ == self@,
    {
        match self {
            ExecInput::String(s) => ExecInput::String(s.clone()),
            ExecInput::URI(u) => ExecInput::URI(u.clone()),
        }
    }
}

/// Dependency discovered by the preprocessor or the compiler.
#[derive(Debug, Clone, PartialEq, Eq, Hash)]
pub enum Dependency {
    URI(&'static str, URI),
    Exec { id: String, cmd: String, input: Option<String>, artifact: ExecArtifact },
}

/// Model of a [`Dependency`].
pub enum DependencyV {
    URI(Seq<char>, Seq<char>),
    Exec { id: Seq<char>, cmd: Seq<char>, input: Option<Seq<char>>, artifact: ExecArtifactV },
}

impl View for Dependency {
    type V = DependencyV;

    open spec fn view(&self) -> DependencyV {
        match self {
            Dependency::URI(kind, uri) => DependencyV::URI(kind@, uri@),
            Dependency::Exec { id, cmd, input, artifact } => DependencyV::Exec {
                id: id@,
                cmd: cmd@,
                input: match input {
                    Some(i) => Some(i@),
                    None => None,
                },
                artifact: artifact@,
            },
        }
    }
}

impl Dependency {
    pub fn same(&self, other: &Dependency) -> (r: bool)
        ensures
            r == (self@ == other@),
    {
        match (self, other) {
            (Dependency::URI(k1, u1), Dependency::URI(k2, u2)) => str_eq(k1, k2) && str_eq(
                u1.as_str(),
                u2.as_str(),
            ),
            (
                Dependency::Exec { id: i1, cmd: c1, input: n1, artifact: a1 },
                Dependency::Exec { id: i2, cmd: c2, input: n2, artifact: a2 },
            ) => {
                let same_input = match (n1, n2) {
                    (Some(x), Some(y)) => str_eq(x.as_str(), y.as_str()),
                    (None, None) => true,
                    _ => false,
                };
                str_eq(i1.as_str(), i2.as_str()) && str_eq(c1.as_str(), c2.as_str()) && same_input
                    && a1.same(a2)
            },
            _ => false,
        }
    }
}

/// The views of a list of dependencies.
pub open spec fn deps_view(deps: Seq<Dependency>) -> Seq<DependencyV> {
    deps.map_values(|d: Dependency| d@)
}

/// `deps` with `d` at its end unless an equal one is there already.
pub open spec fn deps_with(deps: Seq<DependencyV>, d: DependencyV) -> Seq<DependencyV> {
    if deps.contains(d) {
        deps
    } else {
        deps.push(d)
    }
}

/// Adds `d` to `deps` unless an equal dependency is there already.
pub fn insert_dependency(deps: &mut Vec<Dependency>, d: Dependency)
    ensures
        deps_view(final(deps)@) == deps_with(deps_view(old(deps)@), d@),
{
    let mut i: usize = 0;
    while i < deps.len()
        invariant
            i <= deps.len(),
            deps == old(deps),
            forall|j: int| 0 <= j < i ==> deps_view(deps@)[j] != d@,
        decreases deps.len() - i,
    {
        if deps[i].same(&d) {
            assert(deps_view(deps@)[i as int] == d@);
            return ;
        }
        i += 1;
    }
    let ghost before = deps_view(deps@);
    deps.push(d);
    assert(deps_view(deps@) =~= before.push(d@));
}

/// Map from resource path to the place where the resource is read from.
pub type LocationMap = StrMap<Location>;

/// The shared store of trees: a list of slots that hold one node each, and
/// a map from URI to slot. Several URIs may name one slot; a slot is empty
/// while its node is out for a walk.
#[derive(Debug)]
pub struct AstMap {
    pub index: StrMap<usize>,
    pub slots: Vec<Option<Node>>,
}

/// Model of an [`AstMap`].
pub struct AstV {
    pub uris: Seq<Seq<char>>,
    pub targets: Seq<usize>,
    pub slots: Seq<Option<NodeV>>,
}

/// The models of the slots.
pub open spec fn slots_view(s: Seq<Option<Node>>) -> Seq<Option<NodeV>> {
    Seq::new(
        s.len(),
        |i: int|
            match s[i] {
                Some(n) => Some(n@),
                None => None,
            },
    )
}

impl View for AstMap {
    type V = AstV;

    open spec fn view(&self) -> AstV {
        AstV {
            uris: self.index.keys.deep_view(),
            targets: self.index.vals@,
            slots: slots_view(self.slots@),
        }
    }
}

impl AstV {
    /// Every URI names a slot that is there, and no URI stands twice.
    pub open spec fn wf(self) -> bool {
        &&& self.uris.len() == self.targets.len()
        &&& self.uris.no_duplicates()
        &&& self.slots.len() <= usize::MAX
        &&& forall|i: int| 0 <= i < self.targets.len() ==> self.targets[i] < self.slots.len()
    }

    pub open spec fn empty() -> AstV {
        AstV { uris: Seq::empty(), targets: Seq::empty(), slots: Seq::empty() }
    }

    /// The slot that `uri` names.
    pub open spec fn slot_of(self, uri: Seq<char>) -> Option<usize> {
        match position(self.uris, uri) {
            Some(i) => Some(self.targets[i]),
            None => None,
        }
    }

    /// The node stored under `uri`, unless it is out for a walk.
    pub open spec fn node_at(self, uri: Seq<char>) -> Option<NodeV> {
        match self.slot_of(uri) {
            Some(s) => self.slots[s as int],
            None => None,
        }
    }

    /// `node` stored under `uri`: in the slot that `uri` names, or in a new
    /// last slot where `uri` is new.
    pub open spec fn with_node(self, uri: Seq<char>, node: NodeV) -> AstV {
        match self.slot_of(uri) {
            Some(s) => AstV { slots: self.slots.update(s as int, Some(node)), ..self },
            None => AstV {
                uris: self.uris.push(uri),
                targets: self.targets.push(self.slots.len() as usize),
                slots: self.slots.push(Some(node)),
            },
        }
    }

    /// The slot in which `with_node` stores.
    pub open spec fn slot_for(self, uri: Seq<char>) -> usize {
        match self.slot_of(uri) {
            Some(s) => s,
            None => self.slots.len() as usize,
        }
    }

    /// A slot for `uri`, holding an empty root where `uri` is new.
    pub open spec fn ensured(self, uri: Seq<char>) -> AstV {
        match self.slot_of(uri) {
            Some(s) => self,
            None => self.with_node(uri, NodeV::empty(Rule::Root)),
        }
    }

    /// `uri` as one more name of `slot`.
    pub open spec fn aliased(self, uri: Seq<char>, slot: usize) -> AstV {
        AstV { uris: self.uris.push(uri), targets: self.targets.push(slot), ..self }
    }

    /// The slot `slot` emptied.
    pub open spec fn locked(self, slot: usize) -> AstV {
        AstV { slots: self.slots.update(slot as int, None), ..self }
    }

    /// `node` back in the slot `slot`.
    pub open spec fn restored(self, slot: usize, node: NodeV) -> AstV {
        AstV { slots: self.slots.update(slot as int, Some(node)), ..self }
    }

    /// Nothing of `self` is lost in `after`: every slot is still there,
    /// and each that held a node holds one.
    pub open spec fn kept_in(self, after: AstV) -> bool {
        &&& self.slots.len() <= after.slots.len()
        &&& forall|i: int|
            0 <= i < self.slots.len() && (#[trigger] self.slots[i]) is Some
                ==> after.slots[i] is Some
    }
}

impl AstMap {
    /// Every URI names a slot that is there, and no URI stands twice.
    pub open spec fn wf(&self) -> bool {
        self@.wf()
    }

    pub fn new() -> (r: Self)
        ensures
            r.wf(),
            r@ == AstV::empty(),
    {
        let r = AstMap { index: StrMap::new(), slots: Vec::new() };
        assert(r@.uris =~= Seq::empty());
        assert(r@.targets =~= Seq::empty());
        assert(r@.slots =~= Seq::empty());
        r
    }

    /// The number of URIs.
    pub fn len(&self) -> (r: usize)
        ensures
            r == self@.uris.len(),
    {
        self.index.keys.len()
    }

    /// The URIs, in the order in which they came.
    pub fn keys(&self) -> (r: Vec<String>)
        ensures
            r.deep_view() == self@.uris,
    {
        self.index.key_list()
    }

    /// The slot that `uri` names.
    pub fn slot_of(&self, uri: &str) -> (r: Option<usize>)
        requires
            self.wf(),
        ensures
            r == self@.slot_of(uri@),
            r matches Some(s) ==> s < self.slots.len(),
    {
        match self.index.find(uri) {
            Some(i) => Some(self.index.vals[i]),
            None => None,
        }
    }

    pub fn contains_key(&self, uri: &str) -> (r: bool)
        requires
            self.wf(),
        ensures
            r == self@.slot_of(uri@).is_some(),
    {
        self.slot_of(uri).is_some()
    }

    /// The node stored under `uri`, unless it is out for a walk.
    pub fn get(&self, uri: &str) -> (r: Option<&Node>)
        requires
            self.wf(),
        ensures
            match r {
                Some(n) => self@.node_at(uri@) == Some(n@),
                None => self@.node_at(uri@) is None,
            },
    {
        match self.slot_of(uri) {
            Some(s) => self.slots[s].as_ref(),
            None => None,
        }
    }

    /// Stores `node` under `uri`, in place of what `uri` named before, and
    /// returns its slot.
    pub fn insert(&mut self, uri: String, node: Node) -> (r: usize)
        requires
            old(self).wf(),
        ensures
            final(self).wf(),
            final(self)@ == old(self)@.with_node(uri@, node@),
            old(self)@.kept_in(final(self)@),
            r == old(self)@.slot_for(uri@),
            r < final(self).slots.len(),
    {
        proof {
            lemma_position(self.index.keys.deep_view(), uri@);
        }
        match self.slot_of(uri.as_str()) {
            Some(s) => {
                let ghost before = self@.slots;
                self.slots[s] = Some(node);
                assert(self@.slots =~= before.update(s as int, Some(node@)));
                s
            },
            None => {
                let ghost before = self@.slots;
                let s = self.slots.len();
                self.slots.push(Some(node));
                self.index.insert(uri, s);
                assert(self@.slots =~= before.push(Some(node@)));
                assert(self@.slots.len() == self.slots.len());
                assert(self@.uris.no_duplicates());
                assert(self@.wf()) by {
                    assert forall|i: int| 0 <= i < self@.targets.len() implies self@.targets[i]
                        < self@.slots.len() by {
                        if i < old(self)@.targets.len() {
                            assert(self@.targets[i] == old(self)@.targets[i]);
                        }
                    }
                }
                s
            },
        }
    }

    /// Makes sure that `uri` names a slot, with an empty root where it is new,
    /// and returns the slot.
    pub fn ensure(&mut self, uri: &str) -> (r: usize)
        requires
            old(self).wf(),
        ensures
            final(self).wf(),
            final(self)@ == old(self)@.ensured(uri@),
            old(self)@.kept_in(final(self)@),
            r == old(self)@.slot_for(uri@),
            r < final(self).slots.len(),
    {
        match self.slot_of(uri) {
            Some(s) => s,
            None => self.insert(crate::text::copy_str(uri), Node::empty(Rule::Root)),
        }
    }

    /// Gives the slot `slot` one more name. Returns `false`, and changes
    /// nothing, where `uri` names a slot already or `slot` is not there.
    pub fn alias(&mut self, uri: String, slot: usize) -> (r: bool)
        requires
            old(self).wf(),
        ensures
            final(self).wf(),
            r == (old(self)@.slot_of(uri@) is None && slot < old(self)@.slots.len()),
            r ==> final(self)@ == old(self)@.aliased(uri@, slot),
            !r ==> final(self)@ == old(self)@,
            old(self)@.kept_in(final(self)@),
    {
        proof {
            lemma_position(self.index.keys.deep_view(), uri@);
        }
        if slot >= self.slots.len() || self.slot_of(uri.as_str()).is_some() {
            return false;
        }
        self.index.insert(uri, slot);
        assert(self@.wf()) by {
            assert forall|i: int| 0 <= i < self@.targets.len() implies self@.targets[i]
                < self@.slots.len() by {
                if i < old(self)@.targets.len() {
                    assert(self@.targets[i] == old(self)@.targets[i]);
                }
            }
        }
        true
    }

    /// Takes the node out of the slot `slot` for a walk.
    pub fn take(&mut self, slot: usize) -> (r: Option<Node>)
        requires
            old(self).wf(),
            slot < old(self).slots.len(),
        ensures
            final(self).wf(),
            final(self)@ == old(self)@.locked(slot),
            match r {
                Some(n) => old(self)@.slots[slot as int] == Some(n@),
                None => old(self)@.slots[slot as int] is None,
            },
    {
        let ghost before = self@.slots;
        let r = self.slots[slot].take();
        assert(self@.slots =~= before.update(slot as int, None));
        r
    }

    /// Puts `node` back into the slot `slot`.
    pub fn restore(&mut self, slot: usize, node: Node)
        requires
            old(self).wf(),
            slot < old(self).slots.len(),
        ensures
            final(self).wf(),
            final(self)@ == old(self)@.restored(slot, node@),
    {
        let ghost before = self@.slots;
        self.slots[slot] = Some(node);
        assert(self@.slots =~= before.update(slot as int, Some(node@)));
    }
}

impl Default for AstMap {
    fn default() -> (r: Self)
        ensures
            r.wf(),
            r@ == AstV::empty(),
    {
        AstMap::new()
    }
}

/// What can go wrong in the library.
#[derive(Debug, Clone, PartialEq, Eq)]
pub enum LibError {
    /// The markup could not be parsed.
    ParseError(String),
    /// The rule file could not be parsed.
    ParseRuleError(String),
    /// A path pattern does not compile to a regular expression.
    BadRuleRegex(String),
    MissingRoot,
    UnknownRuleSection(String),
    InvalidRule(String),
    InvalidRuleArgument(String),
    InvalidRuleArgumentType(String, String),
    /// A pointer names a slot that the AST map does not have.
    DeadPointer(usize),
    /// A pointer leads back into a node that is being walked.
    PointerCycle(usize),
    /// An id is to be given to a node while another node has it.
    DuplicateId(String),
}

/// Model of a [`LibError`].
pub enum LibErrorV {
    ParseError(Seq<char>),
    ParseRuleError(Seq<char>),
    /// Without the message, which is the `regex` crate's.
    BadRuleRegex,
    MissingRoot,
    UnknownRuleSection(Seq<char>),
    InvalidRule(Seq<char>),
    InvalidRuleArgument(Seq<char>),
    InvalidRuleArgumentType(Seq<char>, Seq<char>),
    DeadPointer(usize),
    PointerCycle(usize),
    DuplicateId(Seq<char>),
}

impl View for LibError {
    type V = LibErrorV;

    open spec fn view(&self) -> LibErrorV {
        match self {
            LibError::ParseError(m) => LibErrorV::ParseError(m@),
            LibError::ParseRuleError(m) => LibErrorV::ParseRuleError(m@),
            LibError::BadRuleRegex(m) => LibErrorV::BadRuleRegex,
            LibError::MissingRoot => LibErrorV::MissingRoot,
            LibError::UnknownRuleSection(s) => LibErrorV::UnknownRuleSection(s@),
            LibError::InvalidRule(s) => LibErrorV::InvalidRule(s@),
            LibError::InvalidRuleArgument(s) => LibErrorV::InvalidRuleArgument(s@),
            LibError::InvalidRuleArgumentType(s, t) => LibErrorV::InvalidRuleArgumentType(s@, t@),
            LibError::DeadPointer(p) => LibErrorV::DeadPointer(*p),
            LibError::PointerCycle(p) => LibErrorV::PointerCycle(*p),
            LibError::DuplicateId(u) => LibErrorV::DuplicateId(u@),
        }
    }
}

/// An error of parsing, with the path of what was parsed before its message.
pub open spec fn error_with_path(e: LibErrorV, path: Seq<char>) -> LibErrorV {
    match e {
        LibErrorV::ParseError(m) => LibErrorV::ParseError(path + ": "@ + m),
        _ => e,
    }
}

/// Results whose parse errors can be given the path of what was parsed.
pub trait LibErrorPathCtx<T>: Sized {
    /// The result with the path before the message of a parse error.
    spec fn with_path_spec(self, path: Seq<char>) -> Result<T, LibErrorV>;

    /// Puts `path` before the message of a parse error.
    fn with_path(self, path: &str) -> (r: Result<T, LibError>)
        ensures
            match r {
                Ok(v) => self.with_path_spec(path@) == Ok::<T, LibErrorV>(v),
                Err(e) => self.with_path_spec(path@) == Err::<T, LibErrorV>(e@),
            },
    ;
}

impl<T> LibErrorPathCtx<T> for Result<T, LibError> {
    open spec fn with_path_spec(self, path: Seq<char>) -> Result<T, LibErrorV> {
        match self {
            Ok(v) => Ok(v),
            Err(e) => Err(error_with_path(e@, path)),
        }
    }

    fn with_path(self, path: &str) -> (r: Result<T, LibError>) {
        match self {
            Ok(v) => Ok(v),
            Err(LibError::ParseError(m)) => Err(
                LibError::ParseError(
                    crate::text::cat(crate::text::cat(path, ": ").as_str(), m.as_str()),
                ),
            ),
            Err(e) => Err(e),
        }
    }
}

} // verus!
