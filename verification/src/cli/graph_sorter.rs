//! Orders the operations of a graph into levels that can run one after another.
use crate::cli::graph::{find_id, lemma_seek, lemma_seek_contains, GraphV, OpGraph};
use crate::cli::op::{ids_view, lemma_id_lt_total, lemma_id_lt_transitive, OpId, OpIdV};
use crate::cli::types::AppError;
use vstd::prelude::*;

verus! {

/// Whether `v` can run once the operations in `done` have run: it is an
/// operation of the graph that has not run, and all that it depends on has.
pub open spec fn ready(g: GraphV, done: Set<OpIdV>, v: OpIdV) -> bool {
    &&& g.ids.contains(v)
    &&& !done.contains(v)
    &&& forall|j: int| 0 <= j < g.deps(v).len() ==> done.contains(#[trigger] g.deps(v)[j])
}

/// The operations of the levels before level `k`.
pub open spec fn placed(g: GraphV, k: nat) -> Set<OpIdV>
    decreases k, 0nat,
{
    if k == 0 {
        Set::empty()
    } else {
        placed(g, (k - 1) as nat).union(level(g, (k - 1) as nat))
    }
}

/// Level `k`: the operations that can run once the levels before it have
/// run. Level 0 holds the operations that depend on nothing.
pub open spec fn level(g: GraphV, k: nat) -> Set<OpIdV>
    decreases k, 1nat,
{
    Set::new(|v: OpIdV| ready(g, placed(g, k), v))
}

/// Rising in the order of ids.
pub open spec fn sorted_ids(s: Seq<OpIdV>) -> bool {
    forall|i: int, j: int| 0 <= i < j < s.len() ==> (#[trigger] s[i]).lt(#[trigger] s[j])
}

/// The models of lists of ids.
pub open spec fn levels_view(s: Seq<Vec<OpId>>) -> Seq<Seq<OpIdV>> {
    s.map_values(|v: Vec<OpId>| ids_view(v@))
}

/// Whether `r` lists the levels of `g`: each level in the order of ids,
/// up to the first level that is empty.
pub open spec fn is_grouping(g: GraphV, r: Seq<Seq<OpIdV>>) -> bool {
    &&& forall|k: int|
        0 <= k < r.len() ==> {
            &&& (#[trigger] r[k]).len() > 0
            &&& sorted_ids(r[k])
            &&& r[k].to_set() == level(g, k as nat)
        }
    &&& level(g, r.len()) =~= Set::<OpIdV>::empty()
}

/// A list that rises in the order of ids is fixed by what it holds.
pub proof fn lemma_sorted_unique(s: Seq<OpIdV>, t: Seq<OpIdV>)
    requires
        sorted_ids(s),
        sorted_ids(t),
        s.to_set() == t.to_set(),
    ensures
        s == t,
    decreases s.len(),
{
    assert(s.no_duplicates()) by {
        assert forall|i: int, j: int| 0 <= i < s.len() && 0 <= j < s.len() && i != j implies s[i]
            != s[j] by {
            crate::cli::op::lemma_id_lt_irreflexive(s[i]);
        }
    }
    assert(t.no_duplicates()) by {
        assert forall|i: int, j: int| 0 <= i < t.len() && 0 <= j < t.len() && i != j implies t[i]
            != t[j] by {
            crate::cli::op::lemma_id_lt_irreflexive(t[i]);
        }
    }
    s.unique_seq_to_set();
    t.unique_seq_to_set();
    assert(s.len() == t.len());
    if s.len() > 0 {
        let a = s.last();
        let b = t.last();
        // each list ends in the greatest id of the set
        assert(a == b) by {
            assert(t.to_set().contains(a)) by {
                assert(s.contains(a));
            }
            assert(s.to_set().contains(b)) by {
                assert(t.contains(b));
            }
            let j = choose|j: int| 0 <= j < t.len() && t[j] == a;
            let i = choose|i: int| 0 <= i < s.len() && s[i] == b;
            if a != b {
                assert(j < t.len() - 1);
                assert(i < s.len() - 1);
                assert(a.lt(b));
                assert(b.lt(a));
                lemma_id_lt_transitive(a, b, a);
                crate::cli::op::lemma_id_lt_irreflexive(a);
            }
        }
        let shorter_s = s.drop_last();
        let shorter_t = t.drop_last();
        assert(shorter_s.to_set() =~= shorter_t.to_set()) by {
            assert forall|e: OpIdV| shorter_s.to_set().contains(e) == shorter_t.to_set().contains(e) by {
                if shorter_s.contains(e) {
                    let i = choose|i: int| 0 <= i < shorter_s.len() && shorter_s[i] == e;
                    assert(s[i] == e);
                    assert(s.contains(e));
                    assert(t.to_set().contains(e));
                    let j = choose|j: int| 0 <= j < t.len() && t[j] == e;
                    assert(e != a);
                    assert(shorter_t[j] == e);
                }
                if shorter_t.contains(e) {
                    let j = choose|j: int| 0 <= j < shorter_t.len() && shorter_t[j] == e;
                    assert(t[j] == e);
                    assert(t.contains(e));
                    assert(s.to_set().contains(e));
                    let i = choose|i: int| 0 <= i < s.len() && s[i] == e;
                    assert(e != b);
                    assert(shorter_s[i] == e);
                }
            }
        }
        lemma_sorted_unique(shorter_s, shorter_t);
        assert(s =~= shorter_s.push(a));
        assert(t =~= shorter_t.push(b));
    } else {
        assert(s =~= t);
    }
}

/// `s`, which rises in the order of ids, with `x` at its place.
pub open spec fn inserted(s: Seq<OpIdV>, x: OpIdV) -> Seq<OpIdV>
    decreases s.len(),
{
    if s.len() == 0 || s.last().lt(x) {
        s.push(x)
    } else {
        inserted(s.drop_last(), x).push(s.last())
    }
}

/// The first `n` of `ids` in the rising order of ids.
pub open spec fn in_order(ids: Seq<OpIdV>, n: int) -> Seq<OpIdV>
    decreases n,
{
    if n <= 0 || n > ids.len() {
        Seq::empty()
    } else {
        inserted(in_order(ids, n - 1), ids[n - 1])
    }
}

/// A rising list with one more id at its place rises, and holds the id
/// besides what it held.
pub proof fn lemma_inserted(s: Seq<OpIdV>, x: OpIdV)
    requires
        sorted_ids(s),
        !s.contains(x),
    ensures
        sorted_ids(inserted(s, x)),
        inserted(s, x).to_set() == s.to_set().insert(x),
        inserted(s, x).len() == s.len() + 1,
    decreases s.len(),
{
    let r = inserted(s, x);
    if s.len() == 0 || s.last().lt(x) {
        s.lemma_push_to_set_commute(x);
        assert forall|i: int, j: int| 0 <= i < j < r.len() implies (#[trigger] r[i]).lt(
            #[trigger] r[j],
        ) by {
            if j < s.len() {
                assert(r[i] == s[i] && r[j] == s[j]);
            } else if i < s.len() - 1 {
                assert(r[i] == s[i]);
                assert(s[i].lt(s[s.len() - 1]));
                crate::cli::op::lemma_id_lt_transitive(s[i], s.last(), x);
            }
        }
    } else {
        let init = s.drop_last();
        let last = s.last();
        assert(sorted_ids(init)) by {
            assert forall|i: int, j: int| 0 <= i < j < init.len() implies (#[trigger] init[i]).lt(
                #[trigger] init[j],
            ) by {
                assert(init[i] == s[i] && init[j] == s[j]);
            }
        }
        assert(!init.contains(x)) by {
            if init.contains(x) {
                let k = choose|k: int| 0 <= k < init.len() && init[k] == x;
                assert(s[k] == x);
            }
        }
        lemma_inserted(init, x);
        let q = inserted(init, x);
        assert(s[s.len() - 1] == last);
        assert(last != x);
        lemma_id_lt_total(last, x);
        assert(x.lt(last));
        assert forall|k: int| 0 <= k < q.len() implies (#[trigger] q[k]).lt(last) by {
            assert(q.to_set().contains(q[k])) by {
                assert(q.contains(q[k]));
            }
            if q[k] != x {
                assert(init.to_set().contains(q[k]));
                assert(init.contains(q[k]));
                let m = choose|m: int| 0 <= m < init.len() && init[m] == q[k];
                assert(s[m] == q[k]);
                assert(s[m].lt(s[s.len() - 1]));
            }
        }
        assert forall|i: int, j: int| 0 <= i < j < r.len() implies (#[trigger] r[i]).lt(
            #[trigger] r[j],
        ) by {
            if j < q.len() {
                assert(r[i] == q[i] && r[j] == q[j]);
            } else {
                assert(r[i] == q[i]);
            }
        }
        q.lemma_push_to_set_commute(last);
        init.lemma_push_to_set_commute(last);
        assert(init.push(last) =~= s);
        assert(r.to_set() =~= s.to_set().insert(x));
    }
}

/// The ids of a list without repeats, put in rising order, rise, and are
/// the ids of the list.
pub proof fn lemma_in_order(ids: Seq<OpIdV>, n: int)
    requires
        ids.no_duplicates(),
        0 <= n <= ids.len(),
    ensures
        sorted_ids(in_order(ids, n)),
        in_order(ids, n).to_set() == ids.take(n).to_set(),
        in_order(ids, n).len() == n,
    decreases n,
{
    if n > 0 {
        lemma_in_order(ids, n - 1);
        let before = in_order(ids, n - 1);
        let x = ids[n - 1];
        assert(!before.contains(x)) by {
            if before.contains(x) {
                assert(before.to_set().contains(x));
                let first = ids.take(n - 1);
                assert(first.contains(x));
                let k = choose|k: int| 0 <= k < first.len() && first[k] == x;
                assert(ids[k] == x);
            }
        }
        lemma_inserted(before, x);
        ids.take(n - 1).lemma_push_to_set_commute(x);
        assert(ids.take(n - 1).push(x) =~= ids.take(n));
    } else {
        assert(in_order(ids, n).to_set() =~= ids.take(n).to_set());
    }
}

/// The levels of a graph are fixed by the graph: sorting it twice, or
/// sorting two graphs that hold the same, gives the same levels.
pub proof fn lemma_grouping_unique(g: GraphV, a: Seq<Seq<OpIdV>>, b: Seq<Seq<OpIdV>>)
    requires
        is_grouping(g, a),
        is_grouping(g, b),
    ensures
        a == b,
{
    if a.len() < b.len() {
        let l = b[a.len() as int];
        assert(l.to_set().contains(l[0])) by {
            assert(l.contains(l[0]));
        }
        assert(level(g, a.len()).contains(l[0]));
    }
    if b.len() < a.len() {
        let l = a[b.len() as int];
        assert(l.to_set().contains(l[0])) by {
            assert(l.contains(l[0]));
        }
        assert(level(g, b.len()).contains(l[0]));
    }
    assert forall|k: int| 0 <= k < a.len() implies a[k] == b[k] by {
        lemma_sorted_unique(a[k], b[k]);
    }
    assert(a =~= b);
}

/// How many entries of `s` are false.
pub open spec fn count_false(s: Seq<bool>) -> nat
    decreases s.len(),
{
    if s.len() == 0 {
        0
    } else if s.last() {
        count_false(s.drop_last())
    } else {
        count_false(s.drop_last()) + 1
    }
}

proof fn lemma_count_false_update(s: Seq<bool>, i: int)
    requires
        0 <= i < s.len(),
        !s[i],
    ensures
        count_false(s.update(i, true)) + 1 == count_false(s),
    decreases s.len(),
{
    if i == s.len() - 1 {
        assert(s.update(i, true).drop_last() =~= s.drop_last());
    } else {
        assert(s.update(i, true).drop_last() =~= s.drop_last().update(i, true));
        lemma_count_false_update(s.drop_last(), i);
    }
}

proof fn lemma_count_false_all(s: Seq<bool>)
    requires
        forall|i: int| 0 <= i < s.len() ==> !s[i],
    ensures
        count_false(s) == s.len(),
    decreases s.len(),
{
    if s.len() > 0 {
        lemma_count_false_all(s.drop_last());
    }
}

/// Adds the edge from `from` to `to` to edge lists that are kept by
/// source: `keys` holds the sources and `lists`, beside it, their targets.
/// An edge that is there already is not added again.
pub fn add_edge(keys: &mut Vec<OpId>, lists: &mut Vec<Vec<OpId>>, from: OpId, to: OpId)
    requires
        old(keys).len() == old(lists).len(),
    ensures
        final(keys).len() == final(lists).len(),
        (GraphV {
            ids: Seq::empty(),
            ops: Seq::empty(),
            from: ids_view(final(keys)@),
            to: crate::cli::graph::lists_view(final(lists)@),
        }) == (GraphV {
            ids: Seq::empty(),
            ops: Seq::empty(),
            from: ids_view(old(keys)@),
            to: crate::cli::graph::lists_view(old(lists)@),
        }).with_dependency(from@, to@),
{
    let ghost k0 = ids_view(keys@);
    let ghost l0 = crate::cli::graph::lists_view(lists@);
    match find_id(keys, &from) {
        Some(i) => {
            assert(l0[i as int] == ids_view(lists[i as int]@));
            proof {
                lemma_seek_contains(ids_view(lists[i as int]@), to@);
            }
            if find_id(&lists[i], &to).is_none() {
                let ghost inner = ids_view(lists[i as int]@);
                lists[i].push(to);
                assert(ids_view(lists[i as int]@) =~= inner.push(to@));
                assert(crate::cli::graph::lists_view(lists@) =~= l0.update(
                    i as int,
                    inner.push(to@),
                ));
            }
        },
        None => {
            let mut list: Vec<OpId> = Vec::new();
            list.push(to);
            assert(ids_view(list@) =~= seq![to@]);
            keys.push(from);
            lists.push(list);
            assert(ids_view(keys@) =~= k0.push(from@));
            assert(crate::cli::graph::lists_view(lists@) =~= l0.push(seq![to@]));
        },
    }
}

/// Whether all that operation `i` depends on has run.
fn deps_placed(graph: &OpGraph, done: &Vec<bool>, i: usize, Ghost(p): Ghost<Set<OpIdV>>) -> (r:
    bool)
    requires
        graph.wf(),
        i < graph.ids.len(),
        done.len() == graph.ids.len(),
        forall|j: int| 0 <= j < done.len() ==> done[j] == p.contains(#[trigger] graph@.ids[j]),
        forall|v: OpIdV| p.contains(v) ==> graph@.ids.contains(v),
    ensures
        r == forall|j: int|
            0 <= j < graph@.deps(graph@.ids[i as int]).len() ==> p.contains(
                #[trigger] graph@.deps(graph@.ids[i as int])[j],
            ),
{
    let ghost g = graph@;
    let ghost v = g.ids[i as int];
    assert(v == graph.ids[i as int]@);
    match find_id(&graph.from, &graph.ids[i]) {
        None => {
            assert(g.deps(v) =~= Seq::empty());
            true
        },
        Some(a) => {
            let list = &graph.to[a];
            assert(g.to[a as int] == ids_view(list@));
            assert(g.deps(v) == ids_view(list@));
            let mut j: usize = 0;
            while j < list.len()
                invariant
                    j <= list.len(),
                    graph.wf(),
                    g == graph@,
                    i < graph.ids.len(),
                    v == g.ids[i as int],
                    done.len() == graph.ids.len(),
                    g.deps(v) == ids_view(list@),
                    forall|t: int|
                        0 <= t < done.len() ==> done[t] == p.contains(#[trigger] g.ids[t]),
                    forall|w: OpIdV| p.contains(w) ==> g.ids.contains(w),
                    forall|t: int| 0 <= t < j ==> p.contains(#[trigger] g.deps(v)[t]),
                decreases list.len() - j,
            {
                let ghost d = g.deps(v)[j as int];
                assert(d == list[j as int]@);
                proof {
                    lemma_seek(g.ids, d, 0);
                    lemma_seek_contains(g.ids, d);
                }
                match find_id(&graph.ids, &list[j]) {
                    Some(t) => {
                        assert(g.ids[t as int] == d);
                        if !done[t] {
                            assert(!p.contains(g.ids[t as int]));
                            assert(!p.contains(g.deps(v)[j as int]));
                            return false;
                        }
                        assert(p.contains(g.ids[t as int]));
                    },
                    None => {
                        assert(!g.ids.contains(d));
                        assert(!p.contains(g.deps(v)[j as int]));
                        return false;
                    },
                }
                j += 1;
            }
            true
        },
    }
}

/// The operations that can run now, as rising indices into the graph.
fn ready_indices(graph: &OpGraph, done: &Vec<bool>, Ghost(p): Ghost<Set<OpIdV>>) -> (r: Vec<
    usize,
>)
    requires
        graph.wf(),
        done.len() == graph.ids.len(),
        forall|j: int| 0 <= j < done.len() ==> done[j] == p.contains(#[trigger] graph@.ids[j]),
        forall|v: OpIdV| p.contains(v) ==> graph@.ids.contains(v),
    ensures
        forall|t: int| 0 <= t < r.len() ==> r[t] < graph.ids.len() && !done[r[t] as int],
        forall|t: int, u: int| 0 <= t < u < r.len() ==> r[t] < r[u],
        forall|t: int| 0 <= t < r.len() ==> ready(graph@, p, #[trigger] graph@.ids[r[t] as int]),
        forall|i: int|
            0 <= i < graph.ids.len() && ready(graph@, p, #[trigger] graph@.ids[i])
                ==> exists|t: int| 0 <= t < r.len() && r[t] == i,
{
    let ghost g = graph@;
    let mut out: Vec<usize> = Vec::new();
    let mut i: usize = 0;
    while i < graph.ids.len()
        invariant
            i <= graph.ids.len(),
            graph.wf(),
            g == graph@,
            done.len() == graph.ids.len(),
            forall|j: int| 0 <= j < done.len() ==> done[j] == p.contains(#[trigger] g.ids[j]),
            forall|v: OpIdV| p.contains(v) ==> g.ids.contains(v),
            forall|t: int| 0 <= t < out.len() ==> out[t] < i && !done[out[t] as int],
            forall|t: int, u: int| 0 <= t < u < out.len() ==> out[t] < out[u],
            forall|t: int| 0 <= t < out.len() ==> ready(g, p, #[trigger] g.ids[out[t] as int]),
            forall|j: int|
                0 <= j < i && ready(g, p, #[trigger] g.ids[j]) ==> exists|t: int|
                    0 <= t < out.len() && out[t] == j,
        decreases graph.ids.len() - i,
    {
        let ghost before = out@;
        if !done[i] && deps_placed(graph, done, i, Ghost(p)) {
            out.push(i);
            proof {
                assert(g.ids.contains(g.ids[i as int]));
                assert(ready(g, p, g.ids[i as int]));
                assert forall|j: int| 0 <= j < i + 1 && ready(g, p, #[trigger] g.ids[j]) implies exists|
                    t: int,
                | 0 <= t < out.len() && out[t] == j by {
                    if j < i {
                        let t = choose|t: int| 0 <= t < before.len() && before[t] == j;
                        assert(out[t] == j);
                    } else {
                        assert(out[out.len() - 1] == j);
                    }
                }
            }
        } else {
            proof {
                assert(!ready(g, p, g.ids[i as int]));
            }
        }
        i += 1;
    }
    out
}

/// Puts `x` into a list that rises in the order of ids, at its place.
pub fn insert_sorted(v: &mut Vec<OpId>, x: OpId)
    requires
        sorted_ids(ids_view(old(v)@)),
        !ids_view(old(v)@).contains(x@),
    ensures
        sorted_ids(ids_view(final(v)@)),
        ids_view(final(v)@).to_set() == ids_view(old(v)@).to_set().insert(x@),
        final(v).len() == old(v).len() + 1,
{
    let ghost s = ids_view(v@);
    let mut p: usize = 0;
    while p < v.len() && !x.less(&v[p])
        invariant
            p <= v.len(),
            v == old(v),
            s == ids_view(v@),
            !s.contains(x@),
            forall|i: int| 0 <= i < p ==> (#[trigger] s[i]).lt(x@),
        decreases v.len() - p,
    {
        proof {
            assert(s[p as int] == v[p as int]@);
            lemma_id_lt_total(s[p as int], x@);
            assert(s.contains(s[p as int]));
        }
        p += 1;
    }
    proof {
        if p < v.len() {
            assert(s[p as int] == v[p as int]@);
        }
    }
    v.insert(p, x);
    proof {
        let t = ids_view(v@);
        assert(t =~= s.insert(p as int, x@));
        assert forall|i: int, j: int| 0 <= i < j < t.len() implies (#[trigger] t[i]).lt(
            #[trigger] t[j],
        ) by {
            if j < p {
                assert(t[i] == s[i] && t[j] == s[j]);
            } else if j == p {
                assert(t[i] == s[i]);
            } else if i < p {
                assert(t[i] == s[i] && t[j] == s[j - 1]);
            } else if i == p {
                assert(t[j] == s[j - 1]);
                if j - 1 > p {
                    lemma_id_lt_transitive(x@, s[p as int], s[j - 1]);
                }
            } else {
                assert(t[i] == s[i - 1] && t[j] == s[j - 1]);
            }
        }
        assert(t.to_set() =~= s.to_set().insert(x@)) by {
            assert forall|e: OpIdV| t.to_set().contains(e) == s.to_set().insert(x@).contains(
                e,
            ) by {
                if t.contains(e) {
                    let k = choose|k: int| 0 <= k < t.len() && t[k] == e;
                    if k < p {
                        assert(s[k] == e);
                    } else if k > p {
                        assert(s[k - 1] == e);
                    }
                }
                if s.contains(e) {
                    let k = choose|k: int| 0 <= k < s.len() && s[k] == e;
                    if k < p {
                        assert(t[k] == e);
                    } else {
                        assert(t[k + 1] == e);
                    }
                }
                if e == x@ {
                    assert(t[p as int] == e);
                }
            }
        }
    }
}

/// Sorts the operations of a graph into levels: level 0 holds the
/// operations that depend on nothing, and each further level those that
/// depend only on operations of the levels before it. Each level rises in
/// the order of ids. An operation that depends on something that is not
/// in the graph, or on itself by way of others, is in no level.
pub fn grouped_topological_sort(graph: &OpGraph) -> (r: Result<Vec<Vec<OpId>>, AppError>)
    requires
        graph.wf(),
    ensures
        r is Ok,
        is_grouping(graph@, levels_view(r->Ok_0@)),
{
    let ghost g = graph@;
    let n = graph.ids.len();
    let mut done: Vec<bool> = Vec::new();
    let mut i: usize = 0;
    while i < n
        invariant
            i <= n,
            done.len() == i,
            forall|j: int| 0 <= j < i ==> !done[j],
        decreases n - i,
    {
        done.push(false);
        i += 1;
    }
    proof {
        lemma_count_false_all(done@);
    }
    let mut res: Vec<Vec<OpId>> = Vec::new();
    let mut left: usize = n;
    assert(levels_view(res@) =~= Seq::<Seq<OpIdV>>::empty());
    loop
        invariant
            graph.wf(),
            g == graph@,
            n == graph.ids.len(),
            done.len() == n,
            left == count_false(done@),
            forall|j: int|
                0 <= j < n ==> done[j] == placed(g, res.len() as nat).contains(#[trigger] g.ids[j]),
            forall|v: OpIdV| placed(g, res.len() as nat).contains(v) ==> g.ids.contains(v),
            forall|k: int|
                0 <= k < res.len() ==> {
                    &&& (#[trigger] levels_view(res@)[k]).len() > 0
                    &&& sorted_ids(levels_view(res@)[k])
                    &&& levels_view(res@)[k].to_set() == level(g, k as nat)
                },
        decreases left,
    {
        let ghost k = res.len() as nat;
        let ghost p = placed(g, k);
        let current = ready_indices(graph, &done, Ghost(p));
        if current.len() == 0 {
            proof {
                assert forall|v: OpIdV| !level(g, k).contains(v) by {
                    if ready(g, p, v) {
                        let j = choose|j: int| 0 <= j < g.ids.len() && g.ids[j] == v;
                        assert(ready(g, p, g.ids[j]));
                    }
                }
                assert(level(g, k) =~= Set::<OpIdV>::empty());
            }
            return Ok(res);
        }
        let mut lvl: Vec<OpId> = Vec::new();
        let ghost done0 = done@;
        let ghost left0 = left;
        let mut t: usize = 0;
        assert(ids_view(lvl@) =~= Seq::<OpIdV>::empty());
        while t < current.len()
            invariant
                t <= current.len(),
                graph.wf(),
                g == graph@,
                n == graph.ids.len(),
                done.len() == n,
                done0.len() == n,
                left == count_false(done@),
                left + t == left0,
                lvl.len() == t,
                forall|a: int| 0 <= a < current.len() ==> current[a] < n && !done0[current[a] as int],
                forall|a: int, b: int| 0 <= a < b < current.len() ==> current[a] < current[b],
                sorted_ids(ids_view(lvl@)),
                forall|e: OpIdV|
                    ids_view(lvl@).contains(e) <==> exists|a: int|
                        0 <= a < t && g.ids[current[a] as int] == e,
                forall|j: int|
                    0 <= j < n ==> done[j] == (done0[j] || exists|a: int|
                        0 <= a < t && current[a] == j),
            decreases current.len() - t,
        {
            let c = current[t];
            let ghost before = ids_view(lvl@);
            let ghost done1 = done@;
            assert(g.ids[c as int] == graph.ids[c as int]@);
            proof {
                // the id is new to the level: the indices before it differ, and ids are distinct
                if before.contains(g.ids[c as int]) {
                    let a = choose|a: int| 0 <= a < t && g.ids[current[a] as int] == g.ids[c as int];
                    assert(current[a] < current[t as int]);
                }
                assert(!done[c as int]) by {
                    if exists|a: int| 0 <= a < t && current[a] == c {
                        let a = choose|a: int| 0 <= a < t && current[a] == c;
                        assert(current[a] < current[t as int]);
                    }
                }
                lemma_count_false_update(done@, c as int);
            }
            insert_sorted(&mut lvl, graph.ids[c].duplicate());
            done[c] = true;
            left = left - 1;
            proof {
                assert(done@ =~= done1.update(c as int, true));
                assert forall|e: OpIdV| ids_view(lvl@).contains(e) <==> exists|a: int|
                    0 <= a < t + 1 && g.ids[current[a] as int] == e by {
                    assert(ids_view(lvl@).to_set().contains(e) == before.to_set().insert(
                        g.ids[c as int],
                    ).contains(e));
                    if before.contains(e) {
                        let a = choose|a: int| 0 <= a < t && g.ids[current[a] as int] == e;
                        assert(0 <= a < t + 1 && g.ids[current[a] as int] == e);
                    }
                    if e == g.ids[c as int] {
                        assert(0 <= t < t + 1 && g.ids[current[t as int] as int] == e);
                    }
                    if exists|a: int| 0 <= a < t + 1 && g.ids[current[a] as int] == e {
                        let a = choose|a: int| 0 <= a < t + 1 && g.ids[current[a] as int] == e;
                        if a < t {
                            assert(before.contains(e));
                        }
                    }
                }
                assert forall|j: int| 0 <= j < n implies done[j] == (done0[j] || exists|a: int|
                    0 <= a < t + 1 && current[a] == j) by {
                    if j == c {
                        assert(current[t as int] == j);
                    } else {
                        assert(done[j] == done1[j]);
                        if exists|a: int| 0 <= a < t && current[a] == j {
                            let a = choose|a: int| 0 <= a < t && current[a] == j;
                            assert(0 <= a < t + 1 && current[a] == j);
                        }
                        if exists|a: int| 0 <= a < t + 1 && current[a] == j {
                            let a = choose|a: int| 0 <= a < t + 1 && current[a] == j;
                            assert(a < t);
                        }
                    }
                }
            }
            t += 1;
        }
        let ghost before_res = levels_view(res@);
        proof {
            // the level holds exactly what was ready
            assert(ids_view(lvl@).to_set() =~= level(g, k)) by {
                assert forall|e: OpIdV| ids_view(lvl@).to_set().contains(e) == level(
                    g,
                    k,
                ).contains(e) by {
                    if ids_view(lvl@).contains(e) {
                        let a = choose|a: int|
                            0 <= a < current.len() && g.ids[current[a] as int] == e;
                        assert(ready(g, p, g.ids[current[a] as int]));
                    }
                    if ready(g, p, e) {
                        let j = choose|j: int| 0 <= j < g.ids.len() && g.ids[j] == e;
                        assert(ready(g, p, g.ids[j]));
                        let a = choose|a: int| 0 <= a < current.len() && current[a] == j;
                        assert(g.ids[current[a] as int] == e);
                    }
                }
            }
            // what has run now is what had run, and the level
            assert forall|j: int| 0 <= j < n implies done[j] == placed(g, k + 1).contains(
                #[trigger] g.ids[j],
            ) by {
                let v = g.ids[j];
                if exists|a: int| 0 <= a < current.len() && current[a] == j {
                    let a = choose|a: int| 0 <= a < current.len() && current[a] == j;
                    assert(ready(g, p, g.ids[current[a] as int]));
                }
                if ready(g, p, v) {
                    assert(ready(g, p, g.ids[j]));
                }
            }
            assert forall|v: OpIdV| placed(g, k + 1).contains(v) implies g.ids.contains(v) by {}
        }
        res.push(lvl);
        proof {
            assert(levels_view(res@) =~= before_res.push(ids_view(lvl@)));
            assert forall|q: int| 0 <= q < res.len() implies {
                &&& (#[trigger] levels_view(res@)[q]).len() > 0
                &&& sorted_ids(levels_view(res@)[q])
                &&& levels_view(res@)[q].to_set() == level(g, q as nat)
            } by {
                if q < k {
                    assert(levels_view(res@)[q] == before_res[q]);
                }
            }
        }
    }
}

} // verus!
