//! The graph of operations and of what each depends on.
use crate::cli::op::{ids_view, ops_view, OpId, OpIdV, Operation, OperationV};
use crate::text::str_eq;
use vstd::prelude::*;

verus! {

/// Index of the first element of `s` equal to `x` at or after `from`;
/// `s.len()` when there is none.
pub open spec fn seek<T>(s: Seq<T>, x: T, from: int) -> int
    decreases s.len() - from,
{
    if from < 0 || from >= s.len() {
        s.len() as int
    } else if s[from] == x {
        from
    } else {
        seek(s, x, from + 1)
    }
}

/// What `seek` finds is the first place of `x`, and it finds none only
/// where there is none.
pub proof fn lemma_seek<T>(s: Seq<T>, x: T, from: int)
    requires
        0 <= from <= s.len(),
    ensures
        from <= seek(s, x, from) <= s.len(),
        seek(s, x, from) < s.len() ==> s[seek(s, x, from)] == x,
        forall|j: int| from <= j < seek(s, x, from) ==> s[j] != x,
    decreases s.len() - from,
{
    if from < s.len() && s[from] != x {
        lemma_seek(s, x, from + 1);
    }
}

/// Whether `x` is among `s`, by `seek`.
pub proof fn lemma_seek_contains<T>(s: Seq<T>, x: T)
    ensures
        (seek(s, x, 0) < s.len()) == s.contains(x),
{
    lemma_seek(s, x, 0);
    if seek(s, x, 0) < s.len() {
        assert(s[seek(s, x, 0)] == x);
    }
}

/// Index of the first of `ids` that is the same as `id`.
pub fn find_id(ids: &Vec<OpId>, id: &OpId) -> (r: Option<usize>)
    ensures
        match r {
            Some(i) => i == seek(ids_view(ids@), id@, 0) && i < ids.len(),
            None => seek(ids_view(ids@), id@, 0) == ids.len(),
        },
{
    let mut i: usize = 0;
    while i < ids.len()
        invariant
            i <= ids.len(),
            seek(ids_view(ids@), id@, i as int) == seek(ids_view(ids@), id@, 0),
        decreases ids.len() - i,
    {
        assert(ids_view(ids@)[i as int] == ids[i as int]@);
        if ids[i].same(id) {
            return Some(i);
        }
        i += 1;
    }
    None
}

/// A copy of a list of ids.
pub fn copy_ids(v: &Vec<OpId>) -> (r: Vec<OpId>)
    ensures
        ids_view(r@) == ids_view(v@),
{
    let mut r: Vec<OpId> = Vec::new();
    let mut i: usize = 0;
    while i < v.len()
        invariant
            i <= v.len(),
            ids_view(r@) == ids_view(v@).take(i as int),
        decreases v.len() - i,
    {
        let ghost before = ids_view(r@);
        r.push(v[i].duplicate());
        assert(ids_view(r@) =~= before.push(v[i as int]@));
        assert(ids_view(v@).take(i + 1) =~= ids_view(v@).take(i as int).push(v[i as int]@));
        i += 1;
    }
    assert(ids_view(v@).take(v.len() as int) =~= ids_view(v@));
    r
}

/// Graph for storing dependencies of operations: the operations by id,
/// and for an id the ids that it depends on, in the order in which they
/// were added.
#[derive(Debug)]
pub struct OpGraph {
    pub ids: Vec<OpId>,
    pub ops: Vec<Operation>,
    pub from: Vec<OpId>,
    pub to: Vec<Vec<OpId>>,
}

/// Model of an [`OpGraph`].
pub struct GraphV {
    pub ids: Seq<OpIdV>,
    pub ops: Seq<OperationV>,
    pub from: Seq<OpIdV>,
    pub to: Seq<Seq<OpIdV>>,
}

/// The models of lists of ids.
pub open spec fn lists_view(s: Seq<Vec<OpId>>) -> Seq<Seq<OpIdV>> {
    s.map_values(|v: Vec<OpId>| ids_view(v@))
}

impl View for OpGraph {
    type V = GraphV;

    open spec fn view(&self) -> GraphV {
        GraphV {
            ids: ids_view(self.ids@),
            ops: ops_view(self.ops@),
            from: ids_view(self.from@),
            to: lists_view(self.to@),
        }
    }
}

impl GraphV {
    pub open spec fn empty() -> GraphV {
        GraphV { ids: Seq::empty(), ops: Seq::empty(), from: Seq::empty(), to: Seq::empty() }
    }

    /// Every operation stands under its own id, no id stands twice, and
    /// no dependency is listed twice.
    pub open spec fn wf(self) -> bool {
        &&& self.ids.len() == self.ops.len()
        &&& self.from.len() == self.to.len()
        &&& self.ids.no_duplicates()
        &&& self.from.no_duplicates()
        &&& forall|i: int| 0 <= i < self.ops.len() ==> (#[trigger] self.ops[i]).id() == self.ids[i]
        &&& forall|i: int| 0 <= i < self.to.len() ==> (#[trigger] self.to[i]).no_duplicates()
    }

    /// The operation that `id` names.
    pub open spec fn vertex(self, id: OpIdV) -> Option<OperationV> {
        if seek(self.ids, id, 0) < self.ops.len() {
            Some(self.ops[seek(self.ids, id, 0)])
        } else {
            None
        }
    }

    /// What `id` depends on, in the order in which it was added.
    pub open spec fn deps(self, id: OpIdV) -> Seq<OpIdV> {
        if seek(self.from, id, 0) < self.to.len() {
            self.to[seek(self.from, id, 0)]
        } else {
            Seq::empty()
        }
    }

    /// The graph with `op` under its id, in place of what stood there.
    pub open spec fn with_node(self, op: OperationV) -> GraphV {
        let i = seek(self.ids, op.id(), 0);
        if i < self.ops.len() {
            GraphV { ops: self.ops.update(i, op), ..self }
        } else {
            GraphV { ids: self.ids.push(op.id()), ops: self.ops.push(op), ..self }
        }
    }

    /// The graph in which `from` depends on `to` as well; nothing changes
    /// where it does already.
    pub open spec fn with_dependency(self, from: OpIdV, to: OpIdV) -> GraphV {
        let i = seek(self.from, from, 0);
        if i < self.to.len() {
            if self.to[i].contains(to) {
                self
            } else {
                GraphV { to: self.to.update(i, self.to[i].push(to)), ..self }
            }
        } else {
            GraphV { from: self.from.push(from), to: self.to.push(seq![to]), ..self }
        }
    }

    /// The graph with the operations `ops[k..]` of a chain, each depending
    /// on the one before it.
    pub open spec fn with_chain_from(self, ops: Seq<OperationV>, k: int) -> GraphV
        decreases ops.len() - k,
    {
        if k < 0 || k >= ops.len() {
            self
        } else if k == 0 {
            self.with_node(ops[0]).with_chain_from(ops, 1)
        } else {
            self.with_node(ops[k]).with_dependency(ops[k].id(), ops[k - 1].id()).with_chain_from(
                ops,
                k + 1,
            )
        }
    }

    /// The graph with a chain of operations, each depending on the one
    /// before it.
    pub open spec fn with_chain(self, ops: Seq<OperationV>) -> GraphV {
        self.with_chain_from(ops, 0)
    }
}

/// Inserting a node keeps a graph well-formed.
pub proof fn lemma_with_node_wf(g: GraphV, op: OperationV)
    requires
        g.wf(),
    ensures
        g.with_node(op).wf(),
        g.with_node(op).vertex(op.id()) == Some(op),
        g.with_node(op).from == g.from,
        g.with_node(op).to == g.to,
{
    lemma_seek(g.ids, op.id(), 0);
    let n = g.with_node(op);
    let i = seek(g.ids, op.id(), 0);
    if i >= g.ops.len() {
        assert forall|j: int| 0 <= j < n.ids.len() implies n.ids[j] != op.id() || j == i by {}
        assert(n.ids.no_duplicates());
    }
    lemma_seek(n.ids, op.id(), 0);
    assert(n.ids[i] == op.id());
    assert(seek(n.ids, op.id(), 0) == i) by {
        if seek(n.ids, op.id(), 0) < i {
            let k = seek(n.ids, op.id(), 0);
            assert(n.ids[k] == op.id());
        }
    }
}

/// Adding a dependency keeps a graph well-formed, and the dependency is there.
pub proof fn lemma_with_dependency_wf(g: GraphV, from: OpIdV, to: OpIdV)
    requires
        g.wf(),
    ensures
        g.with_dependency(from, to).wf(),
        g.with_dependency(from, to).deps(from).contains(to),
        g.with_dependency(from, to).ids == g.ids,
        g.with_dependency(from, to).ops == g.ops,
{
    lemma_seek(g.from, from, 0);
    let n = g.with_dependency(from, to);
    let i = seek(g.from, from, 0);
    if i < g.to.len() {
        if g.to[i].contains(to) {
        } else {
            let grown = g.to[i].push(to);
            assert(grown.no_duplicates());
            assert(grown[g.to[i].len() as int] == to);
            assert forall|k: int| 0 <= k < n.to.len() implies (#[trigger] n.to[k]).no_duplicates() by {
                if k != i {
                    assert(n.to[k] == g.to[k]);
                }
            }
        }
    } else {
        assert(n.from.no_duplicates());
        assert(seq![to].no_duplicates());
        assert forall|k: int| 0 <= k < n.to.len() implies (#[trigger] n.to[k]).no_duplicates() by {
            if k < g.to.len() {
                assert(n.to[k] == g.to[k]);
            }
        }
        assert(seq![to][0] == to);
    }
    lemma_seek(n.from, from, 0);
    assert(n.from[i] == from);
    assert(seek(n.from, from, 0) == i) by {
        if seek(n.from, from, 0) < i {
            let k = seek(n.from, from, 0);
            assert(n.from[k] == from);
        }
    }
}

/// Adding a dependency twice is the same as adding it once.
pub proof fn lemma_dependency_idempotent(g: GraphV, from: OpIdV, to: OpIdV)
    requires
        g.wf(),
    ensures
        g.with_dependency(from, to).with_dependency(from, to) == g.with_dependency(from, to),
{
    lemma_with_dependency_wf(g, from, to);
    let n = g.with_dependency(from, to);
    lemma_seek(n.from, from, 0);
    lemma_seek(g.from, from, 0);
    let i = seek(g.from, from, 0);
    assert(n.from[i] == from);
    assert(seek(n.from, from, 0) == i) by {
        if seek(n.from, from, 0) < i {
            let k = seek(n.from, from, 0);
            assert(n.from[k] == from);
        }
    }
}

impl OpGraph {
    /// Every operation stands under its own id, no id stands twice, and
    /// no dependency is listed twice.
    pub open spec fn wf(&self) -> bool {
        self@.wf()
    }

    pub fn new() -> (r: Self)
        ensures
            r.wf(),
            r@ == GraphV::empty(),
    {
        let r = OpGraph { ids: Vec::new(), ops: Vec::new(), from: Vec::new(), to: Vec::new() };
        assert(r@.ids =~= Seq::empty());
        assert(r@.ops =~= Seq::empty());
        assert(r@.from =~= Seq::empty());
        assert(r@.to =~= Seq::empty());
        r
    }

    /// The operation that `id` names.
    pub fn get(&self, id: &OpId) -> (r: Option<&Operation>)
        requires
            self.wf(),
        ensures
            match r {
                Some(op) => self@.vertex(id@) == Some(op@),
                None => self@.vertex(id@) is None,
            },
    {
        match find_id(&self.ids, id) {
            Some(i) => {
                assert(self@.ops[i as int] == self.ops[i as int]@);
                Some(&self.ops[i])
            },
            None => None,
        }
    }

    /// The first operation of the graph whose id has the URI `uri`.
    pub fn get_uri(&self, uri: &str) -> (r: Option<&Operation>)
        requires
            self.wf(),
        ensures
            match r {
                Some(op) => exists|i: int|
                    0 <= i < self@.ids.len() && self@.ids[i].uri() == uri@ && self@.ops[i] == op@
                        && forall|j: int| 0 <= j < i ==> self@.ids[j].uri() != uri@,
                None => forall|i: int| 0 <= i < self@.ids.len() ==> self@.ids[i].uri() != uri@,
            },
    {
        let mut i: usize = 0;
        while i < self.ids.len()
            invariant
                i <= self.ids.len(),
                self.wf(),
                forall|j: int| 0 <= j < i ==> self@.ids[j].uri() != uri@,
            decreases self.ids.len() - i,
        {
            assert(self@.ids[i as int] == self.ids[i as int]@);
            if str_eq(self.ids[i].uri().as_str(), uri) {
                assert(self@.ops[i as int] == self.ops[i as int]@);
                return Some(&self.ops[i]);
            }
            i += 1;
        }
        None
    }

    /// Puts `op` under its id, in place of what stood there, and returns the id.
    pub fn insert_node(&mut self, op: Operation) -> (r: OpId)
        requires
            old(self).wf(),
        ensures
            final(self).wf(),
            final(self)@ == old(self)@.with_node(op@),
            r@ == op@.id(),
    {
        proof {
            lemma_with_node_wf(self@, op@);
        }
        let id = op.op_id();
        let ghost before = self@;
        match find_id(&self.ids, &id) {
            Some(i) => {
                self.ops[i] = op;
                assert(self@.ops =~= before.ops.update(i as int, op@));
            },
            None => {
                self.ids.push(id.duplicate());
                self.ops.push(op);
                assert(self@.ids =~= before.ids.push(id@));
                assert(self@.ops =~= before.ops.push(op@));
            },
        }
        id
    }

    /// Puts a chain of operations into the graph, each depending on the
    /// one before it.
    pub fn insert_node_chain(&mut self, ops: Vec<Operation>)
        requires
            old(self).wf(),
        ensures
            final(self).wf(),
            final(self)@ == old(self)@.with_chain(ops_view(ops@)),
    {
        let ghost all = ops_view(ops@);
        let ghost start = self@;
        let mut ops = ops;
        let n = ops.len();
        let mut k: usize = 0;
        let mut prev: Option<OpId> = None;
        let mut rest: Vec<Operation> = Vec::new();
        // take the operations from the back into `rest`, so that they come off it in order
        while ops.len() > 0
            invariant
                ops.len() + rest.len() == n,
                n == all.len(),
                forall|j: int| 0 <= j < ops.len() ==> ops[j]@ == all[j],
                forall|j: int| 0 <= j < rest.len() ==> rest[j]@ == all[n - 1 - j],
            decreases ops.len(),
        {
            match ops.pop() {
                Some(op) => {
                    rest.push(op);
                },
                None => {},
            }
        }
        while k < n
            invariant
                k <= n,
                n == all.len(),
                rest.len() == n - k,
                forall|j: int| 0 <= j < rest.len() ==> rest[j]@ == all[n - 1 - j],
                self.wf(),
                k > 0 ==> prev is Some && prev->Some_0@ == all[k - 1].id(),
                k == 0 ==> prev is None,
                self@.with_chain_from(all, k as int) == start.with_chain(all),
            decreases n - k,
        {
            let op = match rest.pop() {
                Some(op) => op,
                None => Operation::Finish,
            };
            assert(op@ == all[k as int]);
            let ghost g0 = self@;
            let next = self.insert_node(op);
            match prev {
                Some(p) => {
                    proof {
                        lemma_with_dependency_wf(self@, next@, p@);
                    }
                    self.add_dependency(next.duplicate(), p);
                },
                None => {},
            }
            proof {
                if k == 0 {
                    assert(g0.with_chain_from(all, 0) == g0.with_node(all[0]).with_chain_from(
                        all,
                        1,
                    ));
                } else {
                    assert(g0.with_chain_from(all, k as int) == g0.with_node(
                        all[k as int],
                    ).with_dependency(all[k as int].id(), all[k - 1].id()).with_chain_from(
                        all,
                        k + 1,
                    ));
                }
            }
            prev = Some(next);
            k += 1;
        }
    }

    /// Makes `from` depend on `to` as well.
    pub fn add_dependency(&mut self, from: OpId, to: OpId)
        requires
            old(self).wf(),
        ensures
            final(self).wf(),
            final(self)@ == old(self)@.with_dependency(from@, to@),
    {
        proof {
            lemma_with_dependency_wf(self@, from@, to@);
        }
        crate::cli::graph_sorter::add_edge(&mut self.from, &mut self.to, from, to);
    }

    /// What `from` depends on, in the order in which it was added.
    pub fn get_dependencies(&self, from: &OpId) -> (r: Vec<OpId>)
        requires
            self.wf(),
        ensures
            ids_view(r@) == self@.deps(from@),
    {
        match find_id(&self.from, from) {
            Some(i) => {
                assert(self@.to[i as int] == ids_view(self.to[i as int]@));
                copy_ids(&self.to[i])
            },
            None => {
                let r: Vec<OpId> = Vec::new();
                assert(ids_view(r@) =~= Seq::<OpIdV>::empty());
                r
            },
        }
    }

    /// The id of the first thing that `node` depends on.
    pub fn get_first_node_dependency(&self, node: &Operation) -> (r: Option<OpId>)
        requires
            self.wf(),
        ensures
            match r {
                Some(id) => self@.deps(node@.id()).len() > 0 && id@ == self@.deps(node@.id())[0],
                None => self@.deps(node@.id()).len() == 0,
            },
    {
        let from = node.op_id();
        let deps = self.get_dependencies(&from);
        if deps.len() > 0 {
            assert(ids_view(deps@)[0] == deps[0]@);
            Some(deps[0].duplicate())
        } else {
            None
        }
    }

    /// The operation that is the first thing that `from` depends on.
    pub fn get_first_dependency(&self, from: &OpId) -> (r: Option<&Operation>)
        requires
            self.wf(),
        ensures
            match r {
                Some(op) => self@.deps(from@).len() > 0 && self@.vertex(self@.deps(from@)[0])
                    == Some(op@),
                None => self@.deps(from@).len() == 0 || self@.vertex(self@.deps(from@)[0]) is None,
            },
    {
        let deps = self.get_dependencies(from);
        if deps.len() > 0 {
            assert(ids_view(deps@)[0] == deps[0]@);
            self.get(&deps[0])
        } else {
            None
        }
    }

    /// The operations with their ids and with what they depend on, in the
    /// order in which they came into the graph.
    pub fn iter(&self) -> (r: Vec<(OpId, Operation, Vec<OpId>)>)
        requires
            self.wf(),
        ensures
            r.len() == self@.ids.len(),
            forall|i: int|
                0 <= i < r.len() ==> {
                    &&& (#[trigger] r[i]).0@ == self@.ids[i]
                    &&& r[i].1@ == self@.ops[i]
                    &&& ids_view(r[i].2@) == self@.deps(self@.ids[i])
                },
    {
        let mut out: Vec<(OpId, Operation, Vec<OpId>)> = Vec::new();
        let mut i: usize = 0;
        while i < self.ids.len()
            invariant
                i <= self.ids.len(),
                self.wf(),
                out.len() == i,
                forall|k: int|
                    0 <= k < i ==> {
                        &&& (#[trigger] out[k]).0@ == self@.ids[k]
                        &&& out[k].1@ == self@.ops[k]
                        &&& ids_view(out[k].2@) == self@.deps(self@.ids[k])
                    },
            decreases self.ids.len() - i,
        {
            assert(self@.ids[i as int] == self.ids[i as int]@);
            assert(self@.ops[i as int] == self.ops[i as int]@);
            let deps = self.get_dependencies(&self.ids[i]);
            out.push((self.ids[i].duplicate(), self.ops[i].duplicate(), deps));
            i += 1;
        }
        out
    }

    /// The number of operations.
    pub fn len(&self) -> (r: usize)
        ensures
            r == self@.ids.len(),
    {
        self.ids.len()
    }

    /// Clear the graph
    pub fn clear(&mut self)
        ensures
            final(self).wf(),
            final(self)@ == GraphV::empty(),
    {
        self.ids.clear();
        self.ops.clear();
        self.from.clear();
        self.to.clear();
        assert(self@.ids =~= Seq::empty());
        assert(self@.ops =~= Seq::empty());
        assert(self@.from =~= Seq::empty());
        assert(self@.to =~= Seq::empty());
    }
}

} // verus!
