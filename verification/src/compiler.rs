//! The rule language and the compiler that it drives.
pub mod lang;
pub mod rule;
pub mod rule_argument;
pub mod rule_parser;

use crate::ast::{
    forest_weight, lemma_child_weight, lemma_children_view, lemma_forest_weight_below,
    lemma_forest_weight_upto, node_height, node_weight, nodes_view, Node, NodeV, Rule,
};
use crate::compiler::lang::{
    close_from, lemma_close_above, lemma_open_above, lemma_open_keeps_tree, lemma_select_from,
    open_from, phase_of, rules_without_exec, select, selected, Lang, Vm,
};
use crate::compiler::rule::{Context, CtxV, RuleV};
use crate::types::{deps_view, AstMap, AstV, Dependency, DependencyV, LibError, LibErrorV};
use vstd::prelude::*;
use vstd::string::*;

verus! {

/// How many of the first `k` slots hold their node.
pub open spec fn free_upto(slots: Seq<Option<NodeV>>, k: nat) -> nat
    decreases k,
{
    if k == 0 || k > slots.len() {
        0
    } else if slots[k - 1] is Some {
        free_upto(slots, (k - 1) as nat) + 1
    } else {
        free_upto(slots, (k - 1) as nat)
    }
}

/// How many slots hold their node.
pub open spec fn free_slots(asts: AstV) -> nat {
    free_upto(asts.slots, asts.slots.len())
}

/// Which slots hold their node.
pub open spec fn lock_pattern(asts: AstV) -> Seq<bool> {
    Seq::new(asts.slots.len(), |i: int| asts.slots[i] is Some)
}

/// Taking a node out of a slot leaves one free slot less.
pub proof fn lemma_free_locked(slots: Seq<Option<NodeV>>, p: int, k: nat)
    requires
        0 <= p < slots.len(),
        slots[p] is Some,
        k <= slots.len(),
    ensures
        free_upto(slots.update(p, None), k) + (if p < k {
            1nat
        } else {
            0nat
        }) == free_upto(slots, k),
    decreases k,
{
    if k > 0 {
        lemma_free_locked(slots, p, (k - 1) as nat);
    }
}

/// Stores with the same slots held have equally many free slots.
pub proof fn lemma_free_same(a: Seq<Option<NodeV>>, b: Seq<Option<NodeV>>, k: nat)
    requires
        a.len() == b.len(),
        k <= a.len(),
        forall|i: int| 0 <= i < a.len() ==> (a[i] is Some) == (b[i] is Some),
    ensures
        free_upto(a, k) == free_upto(b, k),
    decreases k,
{
    if k > 0 {
        lemma_free_same(a, b, (k - 1) as nat);
    }
}

/// What the compiler carries from node to node.
pub struct CompState {
    pub ctx: CtxV,
    pub asts: AstV,
    pub deps: Seq<DependencyV>,
    pub out: Seq<char>,
}

/// A node, or a list of nodes, after compiling.
pub struct Compiled {
    pub nodes: Seq<NodeV>,
    pub st: CompState,
    pub error: Option<LibErrorV>,
}

/// A failed walk.
pub open spec fn failed(st: CompState, e: LibErrorV) -> Compiled {
    Compiled { nodes: Seq::empty(), st, error: Some(e) }
}

/// Compiles what is below a node whose rules are begun: the children of
/// the node that its pointer names, where it has one, and its own
/// otherwise. A pointer is followed by taking the target out of the AST
/// map for the time of the walk; for an ellipsis the children of the
/// target's children are compiled, under the path of the ellipsis's
/// parent.
///
/// `budget` bounds how many pointers are followed one inside the other;
/// it is never reached while it is at least the number of free slots.
pub open spec fn comp_below(
    node: NodeV,
    st: CompState,
    rules: Seq<RuleV>,
    base: Seq<char>,
    path: Seq<char>,
    budget: nat,
) -> Compiled
    decreases budget, node_weight(node), 0nat, 0nat,
{
    match node.pointer {
        Some(p) => {
            if p.0 >= st.asts.slots.len() {
                failed(st, LibErrorV::DeadPointer(p.0))
            } else if st.asts.slots[p.0 as int] is None || budget == 0 {
                failed(st, LibErrorV::PointerCycle(p.0))
            } else {
                let target = st.asts.slots[p.0 as int]->Some_0;
                let inside = CompState { asts: st.asts.locked(p.0), ..st };
                match target.children {
                    Some(c) => {
                        let below = if node.rule == Rule::Ellipsis {
                            comp_wrappers(
                                c,
                                0,
                                Seq::empty(),
                                inside,
                                rules,
                                base,
                                (budget - 1) as nat,
                            )
                        } else {
                            comp_from(
                                c,
                                0,
                                Seq::empty(),
                                target.rule == Rule::Root,
                                inside,
                                rules,
                                path,
                                (budget - 1) as nat,
                            )
                        };
                        Compiled {
                            nodes: seq![node],
                            st: CompState {
                                asts: below.st.asts.restored(
                                    p.0,
                                    NodeV { children: Some(below.nodes), ..target },
                                ),
                                ..below.st
                            },
                            error: below.error,
                        }
                    },
                    None => Compiled { nodes: seq![node], st, error: None },
                }
            }
        },
        None => match node.children {
            Some(c) => {
                proof {
                    assert forall|j: int| 0 <= j < c.len() implies node_weight(#[trigger] c[j])
                        < node_weight(node) by {
                        lemma_child_weight(node, j);
                    }
                    lemma_forest_weight_below(c, seq![node], 0);
                    lemma_forest_weight_upto(seq![node], 1);
                }
                let below = comp_from(
                    c,
                    0,
                    Seq::empty(),
                    node.rule == Rule::Root,
                    st,
                    rules,
                    path,
                    budget,
                );
                Compiled {
                    nodes: seq![NodeV { children: Some(below.nodes), ..node }],
                    st: below.st,
                    error: below.error,
                }
            },
            None => Compiled { nodes: seq![node], st, error: None },
        },
    }
}

/// Compiles one node. The context is told the path of the node and its
/// position among its siblings. The `COMPILE` rules for the path are
/// begun and what they write is emitted; then comes what is below the
/// node; then the rules are ended, last first, and where `joined` holds
/// the top of the stack `join` is emitted.
pub open spec fn comp_one(
    node: NodeV,
    index: usize,
    joined: bool,
    st: CompState,
    rules: Seq<RuleV>,
    base: Seq<char>,
    budget: nat,
) -> Compiled
    decreases budget, node_weight(node), 0nat, 1nat,
{
    let path = node.path(base);
    let sel = selected(rules, path);
    let start = phase_of(
        Vm {
            ctx: CtxV { parent: Some(path), index, ..st.ctx },
            node,
            deps: st.deps,
            out: st.out,
        },
    );
    let ph = open_from(rules, sel, 0, start);
    if ph.failed is Some {
        failed(st, LibErrorV::InvalidRule(ph.failed->Some_0))
    } else {
        proof {
            lemma_open_keeps_tree(rules, sel, 0, start);
            assert(node_height(ph.vm.node) == node_height(node));
        }
        let mid = comp_below(
            ph.vm.node,
            CompState { ctx: ph.vm.ctx, asts: st.asts, deps: ph.vm.deps, out: ph.vm.out },
            rules,
            base,
            path,
            budget,
        );
        if mid.error is Some {
            failed(mid.st, mid.error->Some_0)
        } else {
            let ph2 = close_from(
                rules,
                sel,
                ph.cursors,
                sel.len() as int,
                phase_of(
                    Vm { ctx: mid.st.ctx, node: mid.nodes[0], deps: mid.st.deps, out: mid.st.out },
                ),
            );
            if ph2.failed is Some {
                failed(mid.st, LibErrorV::InvalidRule(ph2.failed->Some_0))
            } else {
                Compiled {
                    nodes: seq![ph2.vm.node],
                    st: CompState {
                        ctx: ph2.vm.ctx,
                        asts: mid.st.asts,
                        deps: ph2.vm.deps,
                        out: if joined && ph2.vm.ctx.top("join"@) is Some {
                            ph2.vm.out + ph2.vm.ctx.top("join"@)->Some_0
                        } else {
                            ph2.vm.out
                        },
                    },
                    error: None,
                }
            }
        }
    }
}

/// Compiles the nodes `nodes[i..]` in order; each gets its position among
/// its siblings as index, and the top of `join` is emitted after each but
/// the last, and after the last too below a root.
pub open spec fn comp_from(
    nodes: Seq<NodeV>,
    i: int,
    done: Seq<NodeV>,
    below_root: bool,
    st: CompState,
    rules: Seq<RuleV>,
    base: Seq<char>,
    budget: nat,
) -> Compiled
    decreases budget, forest_weight(nodes), 1nat, nodes.len() - i,
{
    if i < 0 || i >= nodes.len() {
        Compiled { nodes: done, st, error: None }
    } else {
        proof {
            lemma_forest_weight_upto(nodes, nodes.len());
        }
        let one = comp_one(
            nodes[i],
            i as usize,
            i + 1 < nodes.len() || below_root,
            st,
            rules,
            base,
            budget,
        );
        if one.error is Some {
            failed(one.st, one.error->Some_0)
        } else {
            comp_from(nodes, i + 1, done.push(one.nodes[0]), below_root, one.st, rules, base, budget)
        }
    }
}

/// Compiles what is below the nodes `wrappers[j..]`, passing over the
/// wrappers themselves.
pub open spec fn comp_wrappers(
    wrappers: Seq<NodeV>,
    j: int,
    done: Seq<NodeV>,
    st: CompState,
    rules: Seq<RuleV>,
    base: Seq<char>,
    budget: nat,
) -> Compiled
    decreases budget, forest_weight(wrappers), 1nat, wrappers.len() - j,
{
    if j < 0 || j >= wrappers.len() {
        Compiled { nodes: done, st, error: None }
    } else {
        let w = wrappers[j];
        match w.children {
            Some(c) => {
                proof {
                    assert forall|k: int| 0 <= k < c.len() implies node_weight(#[trigger] c[k])
                        < node_weight(w) by {
                        lemma_child_weight(w, k);
                    }
                    lemma_forest_weight_below(c, wrappers, j);
                }
                let below = comp_from(
                    c,
                    0,
                    Seq::empty(),
                    w.rule == Rule::Root,
                    st,
                    rules,
                    base,
                    budget,
                );
                if below.error is Some {
                    failed(below.st, below.error->Some_0)
                } else {
                    comp_wrappers(
                        wrappers,
                        j + 1,
                        done.push(NodeV { children: Some(below.nodes), ..w }),
                        below.st,
                        rules,
                        base,
                        budget,
                    )
                }
            },
            None => comp_wrappers(wrappers, j + 1, done.push(w), st, rules, base, budget),
        }
    }
}

/// The state of the compiler as the executable code holds it.
pub open spec fn comp_state(
    ctx: &Context,
    asts: &AstMap,
    deps: &Vec<Dependency>,
    out: &String,
) -> CompState {
    CompState { ctx: ctx@, asts: asts@, deps: deps_view(deps@), out: out@ }
}

/// Stores with the same slots held have equally many free slots.
proof fn lemma_same_pattern(a: AstV, b: AstV)
    requires
        lock_pattern(a) == lock_pattern(b),
    ensures
        free_slots(a) == free_slots(b),
{
    assert(a.slots.len() == lock_pattern(a).len());
    assert(b.slots.len() == lock_pattern(b).len());
    assert forall|i: int| 0 <= i < a.slots.len() implies (a.slots[i] is Some) == (
    b.slots[i] is Some) by {
        assert(lock_pattern(a)[i] == (a.slots[i] is Some));
        assert(lock_pattern(b)[i] == (b.slots[i] is Some));
    }
    lemma_free_same(a.slots, b.slots, a.slots.len());
}

/// Compiles the children of the node that a pointer names.
fn compile_target(
    node: &Node,
    p: crate::types::Pointer,
    ctx: &mut Context,
    asts: &mut AstMap,
    deps: &mut Vec<Dependency>,
    out: &mut String,
    lang: &Lang,
    base_path: &str,
    path: &str,
    Ghost(budget): Ghost<nat>,
) -> (r: Result<(), LibError>)
    requires
        old(ctx).wf(),
        old(asts).wf(),
        free_slots(old(asts)@) <= budget,
        node@.pointer == Some(p),
    ensures
        final(ctx).wf(),
        final(asts).wf(),
        lock_pattern(final(asts)@) == lock_pattern(old(asts)@),
        ({
            let c = comp_below(
                node@,
                comp_state(old(ctx), old(asts), old(deps), old(out)),
                lang@.compile_rules,
                base_path@,
                path@,
                budget,
            );
            match r {
                Ok(_) => {
                    &&& c.error is None
                    &&& c.nodes == seq![node@]
                    &&& comp_state(final(ctx), final(asts), final(deps), final(out)) == c.st
                },
                Err(e) => c.error == Some(e@),
            }
        }),
    decreases budget, node_weight(node@), 0nat, 0nat,
{
    proof {
        lemma_children_view(*node);
    }
    if p.0 >= asts.slots.len() {
        return Err(LibError::DeadPointer(p.0));
    }
    let ghost asts1 = asts@;
    assert(asts1.slots.len() == asts.slots.len());
    let mut target = match asts.take(p.0) {
        Some(t) => t,
        None => {
            return Err(LibError::PointerCycle(p.0));
        },
    };
    proof {
        lemma_free_locked(asts1.slots, p.0 as int, asts1.slots.len());
        lemma_children_view(target);
    }
    let ghost target0 = target@;
    let ghost locked = asts@;
    assert(locked == asts1.locked(p.0));
    let is_root = target.rule == Rule::Root;
    let ghost kids0 = target.children;
    let r = match target.children.take() {
        Some(mut kids) => {
            assert(kids0 == Some(kids));
            let r = if node.rule == Rule::Ellipsis {
                compile_wrappers(
                    &mut kids,
                    ctx,
                    asts,
                    deps,
                    out,
                    lang,
                    base_path,
                    Ghost((budget - 1) as nat),
                )
            } else {
                compile_nodes(
                    &mut kids,
                    is_root,
                    ctx,
                    asts,
                    deps,
                    out,
                    lang,
                    path,
                    Ghost((budget - 1) as nat),
                )
            };
            target.children = Some(kids);
            proof {
                lemma_children_view(target);
            }
            r
        },
        None => {
            proof {
                lemma_children_view(target);
                assert(asts1.locked(p.0).restored(p.0, target0).slots =~= asts1.slots);
            }
            Ok(())
        },
    };
    // the target goes back to its slot, whatever came of the walk
    let ghost inner = asts@;
    assert(inner.slots.len() == lock_pattern(inner).len());
    assert(locked.slots.len() == lock_pattern(locked).len());
    assert(asts.slots.len() == inner.slots.len());
    asts.restore(p.0, target);
    proof {
        assert forall|i: int| 0 <= i < asts1.slots.len() implies lock_pattern(asts@)[i]
            == lock_pattern(asts1)[i] by {
            assert(lock_pattern(inner)[i] == lock_pattern(locked)[i]);
        }
        assert(lock_pattern(asts@) =~= lock_pattern(asts1));
    }
    r
}

/// Compiles what is below a node whose rules are begun.
fn compile_below(
    node: &mut Node,
    ctx: &mut Context,
    asts: &mut AstMap,
    deps: &mut Vec<Dependency>,
    out: &mut String,
    lang: &Lang,
    base_path: &str,
    path: &str,
    Ghost(budget): Ghost<nat>,
) -> (r: Result<(), LibError>)
    requires
        old(ctx).wf(),
        old(asts).wf(),
        free_slots(old(asts)@) <= budget,
    ensures
        final(ctx).wf(),
        final(asts).wf(),
        lock_pattern(final(asts)@) == lock_pattern(old(asts)@),
        ({
            let c = comp_below(
                old(node)@,
                comp_state(old(ctx), old(asts), old(deps), old(out)),
                lang@.compile_rules,
                base_path@,
                path@,
                budget,
            );
            match r {
                Ok(_) => {
                    &&& c.error is None
                    &&& final(node)@ == c.nodes[0]
                    &&& comp_state(final(ctx), final(asts), final(deps), final(out)) == c.st
                },
                Err(e) => c.error == Some(e@),
            }
        }),
    decreases budget, node_weight(old(node)@), 0nat, 1nat,
{
    let ghost node0 = node@;
    proof {
        lemma_children_view(*node);
    }
    match node.pointer {
        Some(p) => compile_target(
            node,
            p,
            ctx,
            asts,
            deps,
            out,
            lang,
            base_path,
            path,
            Ghost(budget),
        ),
        None => {
            let is_root = node.rule == Rule::Root;
            let ghost kids0 = node.children;
            match node.children.take() {
                Some(mut kids) => {
                    proof {
                        assert(kids0 == Some(kids));
                        assert forall|j: int| 0 <= j < kids.len() implies node_weight(
                            #[trigger] nodes_view(kids@)[j],
                        ) < node_weight(node0) by {
                            lemma_child_weight(node0, j);
                        }
                        lemma_forest_weight_below(nodes_view(kids@), seq![node0], 0);
                        lemma_forest_weight_upto(seq![node0], 1);
                    }
                    let r = compile_nodes(
                        &mut kids,
                        is_root,
                        ctx,
                        asts,
                        deps,
                        out,
                        lang,
                        path,
                        Ghost(budget),
                    );
                    node.children = Some(kids);
                    proof {
                        lemma_children_view(*node);
                    }
                    r
                },
                None => {
                    proof {
                        lemma_children_view(*node);
                    }
                    Ok(())
                },
            }
        },
    }
}

/// Compiles one node and what is below it, and adds what it emits to `out`.
fn compile_node(
    node: &mut Node,
    index: usize,
    joined: bool,
    ctx: &mut Context,
    asts: &mut AstMap,
    deps: &mut Vec<Dependency>,
    out: &mut String,
    lang: &Lang,
    base_path: &str,
    Ghost(budget): Ghost<nat>,
) -> (r: Result<(), LibError>)
    requires
        old(ctx).wf(),
        old(asts).wf(),
        free_slots(old(asts)@) <= budget,
    ensures
        final(ctx).wf(),
        final(asts).wf(),
        lock_pattern(final(asts)@) == lock_pattern(old(asts)@),
        ({
            let c = comp_one(
                old(node)@,
                index,
                joined,
                comp_state(old(ctx), old(asts), old(deps), old(out)),
                lang@.compile_rules,
                base_path@,
                budget,
            );
            match r {
                Ok(_) => {
                    &&& c.error is None
                    &&& final(node)@ == c.nodes[0]
                    &&& comp_state(final(ctx), final(asts), final(deps), final(out)) == c.st
                },
                Err(e) => c.error == Some(e@),
            }
        }),
    decreases budget, node_weight(old(node)@), 0nat, 2nat,
{
    let ghost node0 = node@;
    let ghost rules_v = lang@.compile_rules;
    let path = node.build_path(base_path);
    ctx.set_parent(path.as_str());
    ctx.set_index(index);
    let rules = &lang.compile_rules;
    let sel = select(rules, path.as_str());
    let ghost sel_v = sel@.map_values(|i: usize| i as int);
    let ghost start = phase_of(Vm { ctx: ctx@, node: node0, deps: deps_view(deps@), out: out@ });
    let cursors = match lang.open_rules(rules, &sel, ctx, deps, node, out) {
        Ok(c) => c,
        Err(e) => {
            return Err(e);
        },
    };
    proof {
        lemma_open_keeps_tree(rules_v, sel_v, 0, start);
        assert(node_height(node@) == node_height(node0));
    }
    match compile_below(node, ctx, asts, deps, out, lang, base_path, path.as_str(), Ghost(budget)) {
        Ok(_) => {},
        Err(e) => {
            return Err(e);
        },
    }
    match lang.close_rules(rules, &sel, &cursors, ctx, deps, node, out) {
        Ok(_) => {},
        Err(e) => {
            return Err(e);
        },
    }
    if joined {
        match ctx.top("join") {
            Some(j) => {
                out.append(j.as_str());
            },
            None => {},
        }
    }
    Ok(())
}

/// Compiles a list of siblings in order.
fn compile_nodes(
    nodes: &mut Vec<Node>,
    below_root: bool,
    ctx: &mut Context,
    asts: &mut AstMap,
    deps: &mut Vec<Dependency>,
    out: &mut String,
    lang: &Lang,
    base_path: &str,
    Ghost(budget): Ghost<nat>,
) -> (r: Result<(), LibError>)
    requires
        old(ctx).wf(),
        old(asts).wf(),
        free_slots(old(asts)@) <= budget,
    ensures
        final(ctx).wf(),
        final(asts).wf(),
        lock_pattern(final(asts)@) == lock_pattern(old(asts)@),
        ({
            let c = comp_from(
                nodes_view(old(nodes)@),
                0,
                Seq::empty(),
                below_root,
                comp_state(old(ctx), old(asts), old(deps), old(out)),
                lang@.compile_rules,
                base_path@,
                budget,
            );
            match r {
                Ok(_) => {
                    &&& c.error is None
                    &&& nodes_view(final(nodes)@) == c.nodes
                    &&& comp_state(final(ctx), final(asts), final(deps), final(out)) == c.st
                },
                Err(e) => c.error == Some(e@),
            }
        }),
    decreases budget, forest_weight(nodes_view(old(nodes)@)), 1nat, 0nat,
{
    let ghost orig = nodes_view(nodes@);
    let ghost rules_v = lang@.compile_rules;
    let ghost goal = comp_from(
        orig,
        0,
        Seq::empty(),
        below_root,
        comp_state(ctx, asts, deps, out),
        rules_v,
        base_path@,
        budget,
    );
    let ghost mut done: Seq<NodeV> = Seq::empty();
    let mut i: usize = 0;
    assert(nodes_view(nodes@) =~= done + orig.skip(0));
    while i < nodes.len()
        invariant
            i <= nodes.len(),
            nodes.len() == orig.len(),
            orig == nodes_view(old(nodes)@),
            rules_v == lang@.compile_rules,
            ctx.wf(),
            asts.wf(),
            free_slots(asts@) <= budget,
            lock_pattern(asts@) == lock_pattern(old(asts)@),
            done.len() == i,
            nodes_view(nodes@) == done + orig.skip(i as int),
            goal == comp_from(
                orig,
                0,
                Seq::empty(),
                below_root,
                comp_state(old(ctx), old(asts), old(deps), old(out)),
                rules_v,
                base_path@,
                budget,
            ),
            goal == comp_from(
                orig,
                i as int,
                done,
                below_root,
                comp_state(ctx, asts, deps, out),
                rules_v,
                base_path@,
                budget,
            ),
        decreases nodes.len() - i,
    {
        let ghost before = nodes_view(nodes@);
        let ghost asts0 = asts@;
        proof {
            lemma_forest_weight_upto(orig, orig.len());
            assert(before[i as int] == orig[i as int]);
            assert(nodes[i as int]@ == orig[i as int]);
        }
        let joined = i + 1 < nodes.len() || below_root;
        let r = compile_node(
            &mut nodes[i],
            i,
            joined,
            ctx,
            asts,
            deps,
            out,
            lang,
            base_path,
            Ghost(budget),
        );
        match r {
            Ok(_) => {},
            Err(e) => {
                return Err(e);
            },
        }
        proof {
            lemma_same_pattern(asts@, asts0);
            let one = nodes[i as int]@;
            assert(nodes_view(nodes@) =~= done.push(one) + orig.skip(i + 1)) by {
                assert forall|j: int| 0 <= j < nodes.len() implies nodes_view(nodes@)[j] == (
                done.push(one) + orig.skip(i + 1))[j] by {
                    if j < i {
                        assert(nodes_view(nodes@)[j] == before[j]);
                    } else if j > i {
                        assert(nodes_view(nodes@)[j] == before[j]);
                    }
                }
            }
            done = done.push(one);
        }
        i += 1;
    }
    assert(orig.skip(i as int) =~= Seq::<NodeV>::empty());
    assert(done + Seq::<NodeV>::empty() =~= done);
    Ok(())
}

/// Compiles what is below a list of wrappers, passing over the wrappers.
fn compile_wrappers(
    wrappers: &mut Vec<Node>,
    ctx: &mut Context,
    asts: &mut AstMap,
    deps: &mut Vec<Dependency>,
    out: &mut String,
    lang: &Lang,
    base_path: &str,
    Ghost(budget): Ghost<nat>,
) -> (r: Result<(), LibError>)
    requires
        old(ctx).wf(),
        old(asts).wf(),
        free_slots(old(asts)@) <= budget,
    ensures
        final(ctx).wf(),
        final(asts).wf(),
        lock_pattern(final(asts)@) == lock_pattern(old(asts)@),
        ({
            let c = comp_wrappers(
                nodes_view(old(wrappers)@),
                0,
                Seq::empty(),
                comp_state(old(ctx), old(asts), old(deps), old(out)),
                lang@.compile_rules,
                base_path@,
                budget,
            );
            match r {
                Ok(_) => {
                    &&& c.error is None
                    &&& nodes_view(final(wrappers)@) == c.nodes
                    &&& comp_state(final(ctx), final(asts), final(deps), final(out)) == c.st
                },
                Err(e) => c.error == Some(e@),
            }
        }),
    decreases budget, forest_weight(nodes_view(old(wrappers)@)), 1nat, 0nat,
{
    let ghost orig = nodes_view(wrappers@);
    let ghost rules_v = lang@.compile_rules;
    let ghost goal = comp_wrappers(
        orig,
        0,
        Seq::empty(),
        comp_state(ctx, asts, deps, out),
        rules_v,
        base_path@,
        budget,
    );
    let ghost mut done: Seq<NodeV> = Seq::empty();
    let mut j: usize = 0;
    assert(nodes_view(wrappers@) =~= done + orig.skip(0));
    while j < wrappers.len()
        invariant
            j <= wrappers.len(),
            wrappers.len() == orig.len(),
            orig == nodes_view(old(wrappers)@),
            rules_v == lang@.compile_rules,
            ctx.wf(),
            asts.wf(),
            free_slots(asts@) <= budget,
            lock_pattern(asts@) == lock_pattern(old(asts)@),
            done.len() == j,
            nodes_view(wrappers@) == done + orig.skip(j as int),
            goal == comp_wrappers(
                orig,
                0,
                Seq::empty(),
                comp_state(old(ctx), old(asts), old(deps), old(out)),
                rules_v,
                base_path@,
                budget,
            ),
            goal == comp_wrappers(
                orig,
                j as int,
                done,
                comp_state(ctx, asts, deps, out),
                rules_v,
                base_path@,
                budget,
            ),
        decreases wrappers.len() - j,
    {
        let ghost before = nodes_view(wrappers@);
        let ghost asts0 = asts@;
        let ghost w = orig[j as int];
        proof {
            assert(before[j as int] == w);
            assert(wrappers[j as int]@ == w);
            lemma_children_view(wrappers[j as int]);
        }
        let is_root = wrappers[j].rule == Rule::Root;
        let ghost kids0 = wrappers[j as int].children;
        match wrappers[j].children.take() {
            Some(mut kids) => {
                proof {
                    assert(kids0 == Some(kids));
                    assert forall|k: int| 0 <= k < kids.len() implies node_weight(
                        #[trigger] nodes_view(kids@)[k],
                    ) < node_weight(w) by {
                        lemma_child_weight(w, k);
                    }
                    lemma_forest_weight_below(nodes_view(kids@), orig, j as int);
                }
                let r = compile_nodes(
                    &mut kids,
                    is_root,
                    ctx,
                    asts,
                    deps,
                    out,
                    lang,
                    base_path,
                    Ghost(budget),
                );
                wrappers[j].children = Some(kids);
                proof {
                    lemma_children_view(wrappers[j as int]);
                }
                match r {
                    Ok(_) => {},
                    Err(e) => {
                        return Err(e);
                    },
                }
            },
            None => {},
        }
        proof {
            lemma_same_pattern(asts@, asts0);
            let one = wrappers[j as int]@;
            assert(nodes_view(wrappers@) =~= done.push(one) + orig.skip(j + 1)) by {
                assert forall|k: int| 0 <= k < wrappers.len() implies nodes_view(wrappers@)[k]
                    == (done.push(one) + orig.skip(j + 1))[k] by {
                    if k < j {
                        assert(nodes_view(wrappers@)[k] == before[k]);
                    } else if k > j {
                        assert(nodes_view(wrappers@)[k] == before[k]);
                    }
                }
            }
            done = done.push(one);
        }
        j += 1;
    }
    assert(orig.skip(j as int) =~= Seq::<NodeV>::empty());
    assert(done + Seq::<NodeV>::empty() =~= done);
    Ok(())
}

/// What compiling a tree gives: the tree is walked as a list of one node
/// without a parent, from an empty context and an empty output.
pub open spec fn compiled(node: NodeV, asts: AstV, rules: Seq<RuleV>) -> Compiled {
    comp_from(
        seq![node],
        0,
        Seq::empty(),
        false,
        CompState { ctx: CtxV::empty(), asts, deps: Seq::empty(), out: Seq::empty() },
        rules,
        Seq::empty(),
        asts.slots.len(),
    )
}

/// Compiles a tree to text by the `COMPILE` rules of `lang`, following
/// pointers into the AST map. The rules may change the properties of the
/// nodes that they are applied to, in the tree and in the map. Whether
/// the work succeeds or fails, every node that was taken out of the map
/// for a walk is back in its slot afterwards.
pub fn compile(node: &mut Node, asts: &mut AstMap, lang: &Lang) -> (r: Result<String, LibError>)
    requires
        old(asts).wf(),
    ensures
        final(asts).wf(),
        lock_pattern(final(asts)@) == lock_pattern(old(asts)@),
        ({
            let c = compiled(old(node)@, old(asts)@, lang@.compile_rules);
            match r {
                Ok(text) => {
                    &&& c.error is None
                    &&& text@ == c.st.out
                    &&& final(node)@ == c.nodes[0]
                    &&& final(asts)@ == c.st.asts
                },
                Err(e) => c.error == Some(e@),
            }
        }),
{
    let mut ctx = Context::new();
    let mut deps: Vec<Dependency> = Vec::new();
    let mut out = String::new();
    let mut nodes: Vec<Node> = Vec::new();
    let mut taken = Node::empty(Rule::Root);
    std::mem::swap(node, &mut taken);
    let ghost node0 = taken@;
    nodes.push(taken);
    proof {
        reveal_strlit("");
        assert(""@ =~= Seq::<char>::empty());
        assert(deps_view(deps@) =~= Seq::<DependencyV>::empty());
        assert(nodes_view(nodes@) =~= seq![node0]);
        lemma_free_bound(asts@.slots, asts@.slots.len());
    }
    let r = compile_nodes(
        &mut nodes,
        false,
        &mut ctx,
        asts,
        &mut deps,
        &mut out,
        lang,
        "",
        Ghost(asts@.slots.len()),
    );
    let ghost after = nodes_view(nodes@);
    let ghost c = compiled(node0, old(asts)@, lang@.compile_rules);
    proof {
        if r is Ok {
            lemma_comp_from_len(
                seq![node0],
                0,
                Seq::empty(),
                false,
                CompState {
                    ctx: CtxV::empty(),
                    asts: old(asts)@,
                    deps: Seq::empty(),
                    out: Seq::empty(),
                },
                lang@.compile_rules,
                Seq::empty(),
                old(asts)@.slots.len(),
            );
            assert(after == c.nodes);
            assert(after.len() == 1);
            assert(nodes.len() == 1);
        }
    }
    match nodes.pop() {
        Some(n) => {
            assert(r is Ok ==> n@ == after[0]);
            *node = n;
        },
        None => {},
    }
    match r {
        Ok(_) => Ok(out),
        Err(e) => Err(e),
    }
}

/// Compiling a node that carries a pointer emits, below the node, what
/// compiling the children of the pointer's target emits: under the path
/// of the node, and for an ellipsis one level further down, under the
/// path of the ellipsis's parent.
pub proof fn lemma_pointer_follow(
    node: NodeV,
    p: crate::types::Pointer,
    target: NodeV,
    children: Seq<NodeV>,
    st: CompState,
    rules: Seq<RuleV>,
    base: Seq<char>,
    path: Seq<char>,
    budget: nat,
)
    requires
        node.pointer == Some(p),
        p.0 < st.asts.slots.len(),
        st.asts.slots[p.0 as int] == Some(target),
        target.children == Some(children),
        budget > 0,
    ensures
        ({
            let inside = CompState { asts: st.asts.locked(p.0), ..st };
            let below = if node.rule == Rule::Ellipsis {
                comp_wrappers(children, 0, Seq::empty(), inside, rules, base, (budget - 1) as nat)
            } else {
                comp_from(
                    children,
                    0,
                    Seq::empty(),
                    target.rule == Rule::Root,
                    inside,
                    rules,
                    path,
                    (budget - 1) as nat,
                )
            };
            let got = comp_below(node, st, rules, base, path, budget);
            &&& got.error == below.error
            &&& got.st.out == below.st.out
            &&& got.st.ctx == below.st.ctx
            &&& got.st.deps == below.st.deps
            &&& got.nodes == seq![node]
            &&& got.st.asts == below.st.asts.restored(
                p.0,
                NodeV { children: Some(below.nodes), ..target },
            )
        }),
{
}

/// A node that points at a target emits, below itself, what the same
/// node would emit with the target's children as its own and no pointer,
/// while the target is out of the AST map. This holds of a node that is no
/// ellipsis, and where the node and its target are both roots or both
/// none: below a root the join comes after the last child as well.
pub proof fn lemma_pointer_as_children(
    node: NodeV,
    p: crate::types::Pointer,
    target: NodeV,
    children: Seq<NodeV>,
    st: CompState,
    rules: Seq<RuleV>,
    base: Seq<char>,
    path: Seq<char>,
    budget: nat,
)
    requires
        node.pointer == Some(p),
        node.rule != Rule::Ellipsis,
        (node.rule == Rule::Root) == (target.rule == Rule::Root),
        p.0 < st.asts.slots.len(),
        st.asts.slots[p.0 as int] == Some(target),
        target.children == Some(children),
        budget > 0,
    ensures
        ({
            let copy = NodeV { pointer: None, children: Some(children), ..node };
            let inside = CompState { asts: st.asts.locked(p.0), ..st };
            let got = comp_below(node, st, rules, base, path, budget);
            let same = comp_below(copy, inside, rules, base, path, (budget - 1) as nat);
            &&& got.error == same.error
            &&& got.st.out == same.st.out
            &&& got.st.ctx == same.st.ctx
            &&& got.st.deps == same.st.deps
        }),
{
}

/// Compiling a node that points at a target gives the text that
/// compiling the same node gives with the target's children as its own
/// and no pointer, while the target is out of the AST map: the node's own
/// rules run once, around what the target's children emit, and the node's
/// own children are not emitted. This holds of a node that is no
/// ellipsis, where the node and its target are both roots or both none,
/// and for rules without `EXEC`, which alone reads the children of the
/// node that it is applied to.
pub proof fn lemma_pointer_node(
    node: NodeV,
    p: crate::types::Pointer,
    target: NodeV,
    children: Seq<NodeV>,
    index: usize,
    joined: bool,
    st: CompState,
    rules: Seq<RuleV>,
    base: Seq<char>,
    budget: nat,
)
    requires
        node.pointer == Some(p),
        node.rule != Rule::Ellipsis,
        (node.rule == Rule::Root) == (target.rule == Rule::Root),
        p.0 < st.asts.slots.len(),
        st.asts.slots[p.0 as int] == Some(target),
        target.children == Some(children),
        budget > 0,
        rules_without_exec(rules),
    ensures
        ({
            let copy = NodeV { pointer: None, children: Some(children), ..node };
            let inside = CompState { asts: st.asts.locked(p.0), ..st };
            let got = comp_one(node, index, joined, st, rules, base, budget);
            let same = comp_one(copy, index, joined, inside, rules, base, (budget - 1) as nat);
            &&& got.error == same.error
            &&& got.error is None ==> {
                &&& got.st.out == same.st.out
                &&& got.st.ctx == same.st.ctx
                &&& got.st.deps == same.st.deps
            }
        }),
{
    let copy = NodeV { pointer: None, children: Some(children), ..node };
    let inside = CompState { asts: st.asts.locked(p.0), ..st };
    let path = node.path(base);
    assert(copy.path(base) == path);
    let sel = selected(rules, path);
    lemma_select_from(rules, path, 0);
    let ctx = CtxV { parent: Some(path), index, ..st.ctx };
    let start_a = phase_of(Vm { ctx, node, deps: st.deps, out: st.out });
    let start_b = phase_of(Vm { ctx, node: copy, deps: st.deps, out: st.out });
    lemma_open_above(rules, sel, 0, start_a, start_b);
    lemma_open_keeps_tree(rules, sel, 0, start_a);
    lemma_open_keeps_tree(rules, sel, 0, start_b);
    let pa = open_from(rules, sel, 0, start_a);
    let pb = open_from(rules, sel, 0, start_b);
    if pa.failed is None {
        let st_a = CompState { ctx: pa.vm.ctx, asts: st.asts, deps: pa.vm.deps, out: pa.vm.out };
        let st_b = CompState { asts: st.asts.locked(p.0), ..st_a };
        assert(pb.vm.node == (NodeV { pointer: None, children: Some(children), ..pa.vm.node }));
        lemma_pointer_as_children(pa.vm.node, p, target, children, st_a, rules, base, path, budget);
        let ma = comp_below(pa.vm.node, st_a, rules, base, path, budget);
        let mb = comp_below(pb.vm.node, st_b, rules, base, path, (budget - 1) as nat);
        if ma.error is None {
            lemma_pointer_follow(pa.vm.node, p, target, children, st_a, rules, base, path, budget);
            assert(ma.nodes == seq![pa.vm.node]);
            assert(mb.nodes.len() == 1);
            let ca = phase_of(
                Vm { ctx: ma.st.ctx, node: ma.nodes[0], deps: ma.st.deps, out: ma.st.out },
            );
            let cb = phase_of(
                Vm { ctx: mb.st.ctx, node: mb.nodes[0], deps: mb.st.deps, out: mb.st.out },
            );
            lemma_close_above(rules, sel, pa.cursors, sel.len() as int, ca, cb);
        }
    }
}

/// Whether `a` is `b` but for the slot `p`, which is empty in `a`.
pub open spec fn apart_at(a: AstV, b: AstV, p: usize) -> bool {
    &&& a.uris == b.uris
    &&& a.targets == b.targets
    &&& a.slots.len() == b.slots.len()
    &&& p < a.slots.len()
    &&& a.slots[p as int] is None
    &&& forall|i: int| 0 <= i < a.slots.len() && i != p ==> a.slots[i] == b.slots[i]
}

/// Whether two states of the compiler are the same but for the slot `p`
/// of the AST map, which is empty in `a`.
pub open spec fn same_start(a: CompState, b: CompState, p: usize) -> bool {
    &&& a.ctx == b.ctx
    &&& a.deps == b.deps
    &&& a.out == b.out
    &&& apart_at(a.asts, b.asts, p)
}

/// Whether the walk `b` succeeded with what the walk `a` gave, but for
/// the slot `p` of the AST map.
pub open spec fn same_walk(a: Compiled, b: Compiled, p: usize) -> bool {
    &&& b.error is None
    &&& a.nodes == b.nodes
    &&& same_start(a.st, b.st, p)
}

/// A walk below a node with a pointer succeeds only where the pointer
/// names a slot that holds its node, and the budget is not used up.
pub proof fn lemma_below_live(
    node: NodeV,
    q: crate::types::Pointer,
    st: CompState,
    rules: Seq<RuleV>,
    base: Seq<char>,
    path: Seq<char>,
    budget: nat,
)
    requires
        node.pointer == Some(q),
        comp_below(node, st, rules, base, path, budget).error is None,
    ensures
        q.0 < st.asts.slots.len(),
        st.asts.slots[q.0 as int] is Some,
        budget > 0,
{
}

/// Putting the same node back into the same slot keeps two AST maps the
/// same but for the slot `p`.
pub proof fn lemma_restored_apart(a: AstV, b: AstV, p: usize, q: usize, back: NodeV)
    requires
        apart_at(a, b, p),
        q != p,
        q < a.slots.len(),
    ensures
        apart_at(a.restored(q, back), b.restored(q, back), p),
{
}

/// Taking the node out of the same slot keeps two AST maps the same but
/// for the slot `p`.
pub proof fn lemma_locked_apart(a: AstV, b: AstV, p: usize, q: usize)
    requires
        apart_at(a, b, p),
        q < a.slots.len(),
    ensures
        apart_at(a.locked(q), b.locked(q), p),
{
}

/// A walk below a node that succeeds while a slot is empty and the budget
/// is low gives the same with the slot filled and a budget as high or
/// higher: it never came to the slot.
pub proof fn lemma_unlock_below(
    node: NodeV,
    a: CompState,
    b: CompState,
    p: usize,
    rules: Seq<RuleV>,
    base: Seq<char>,
    path: Seq<char>,
    low: nat,
    high: nat,
)
    requires
        same_start(a, b, p),
        low <= high,
        comp_below(node, a, rules, base, path, low).error is None,
    ensures
        same_walk(
            comp_below(node, a, rules, base, path, low),
            comp_below(node, b, rules, base, path, high),
            p,
        ),
        comp_below(node, a, rules, base, path, low).st.asts.slots.len() == a.asts.slots.len(),
    decreases low, node_weight(node), 0nat, 0nat,
{
    let got_a = comp_below(node, a, rules, base, path, low);
    let got_b = comp_below(node, b, rules, base, path, high);
    match node.pointer {
        Some(q) => {
            lemma_below_live(node, q, a, rules, base, path, low);
            let target = a.asts.slots[q.0 as int]->Some_0;
            assert(q.0 != p);
            assert(b.asts.slots[q.0 as int] == Some(target));
            let ia = CompState { asts: a.asts.locked(q.0), ..a };
            let ib = CompState { asts: b.asts.locked(q.0), ..b };
            lemma_locked_apart(a.asts, b.asts, p, q.0);
            assert(same_start(ia, ib, p));
            match target.children {
                Some(c) => {
                    let lo = (low - 1) as nat;
                    let hi = (high - 1) as nat;
                    lemma_pointer_follow(node, q, target, c, a, rules, base, path, low);
                    lemma_pointer_follow(node, q, target, c, b, rules, base, path, high);
                    let (below_a, below_b) = if node.rule == Rule::Ellipsis {
                        lemma_unlock_wrappers(c, 0, Seq::empty(), ia, ib, p, rules, base, lo, hi);
                        (
                            comp_wrappers(c, 0, Seq::empty(), ia, rules, base, lo),
                            comp_wrappers(c, 0, Seq::empty(), ib, rules, base, hi),
                        )
                    } else {
                        let root = target.rule == Rule::Root;
                        lemma_unlock_from(c, 0, Seq::empty(), root, ia, ib, p, rules, path, lo, hi);
                        (
                            comp_from(c, 0, Seq::empty(), root, ia, rules, path, lo),
                            comp_from(c, 0, Seq::empty(), root, ib, rules, path, hi),
                        )
                    };
                    assert(same_walk(below_a, below_b, p));
                    let back = NodeV { children: Some(below_a.nodes), ..target };
                    assert(below_a.st.asts.slots.len() == below_b.st.asts.slots.len());
                    assert(below_a.st.asts.slots.len() == a.asts.slots.len());
                    lemma_restored_apart(below_a.st.asts, below_b.st.asts, p, q.0, back);
                    assert(got_a.st.asts == below_a.st.asts.restored(q.0, back));
                    assert(got_b.st.asts == below_b.st.asts.restored(q.0, back));
                    assert(same_walk(got_a, got_b, p));
                },
                None => {
                    assert(same_walk(got_a, got_b, p));
                },
            }
        },
        None => match node.children {
            Some(c) => {
                assert forall|j: int| 0 <= j < c.len() implies node_weight(#[trigger] c[j])
                    < node_weight(node) by {
                    lemma_child_weight(node, j);
                }
                lemma_forest_weight_below(c, seq![node], 0);
                lemma_forest_weight_upto(seq![node], 1);
                lemma_unlock_from(
                    c,
                    0,
                    Seq::empty(),
                    node.rule == Rule::Root,
                    a,
                    b,
                    p,
                    rules,
                    path,
                    low,
                    high,
                );
            },
            None => {},
        },
    }
}

/// As `lemma_unlock_below`, for the walk of one node.
pub proof fn lemma_unlock_one(
    node: NodeV,
    index: usize,
    joined: bool,
    a: CompState,
    b: CompState,
    p: usize,
    rules: Seq<RuleV>,
    base: Seq<char>,
    low: nat,
    high: nat,
)
    requires
        same_start(a, b, p),
        low <= high,
        comp_one(node, index, joined, a, rules, base, low).error is None,
    ensures
        same_walk(
            comp_one(node, index, joined, a, rules, base, low),
            comp_one(node, index, joined, b, rules, base, high),
            p,
        ),
        comp_one(node, index, joined, a, rules, base, low).st.asts.slots.len() == a.asts.slots.len(),
    decreases low, node_weight(node), 0nat, 1nat,
{
    let path = node.path(base);
    let sel = selected(rules, path);
    let start = phase_of(
        Vm { ctx: CtxV { parent: Some(path), index, ..a.ctx }, node, deps: a.deps, out: a.out },
    );
    let ph = open_from(rules, sel, 0, start);
    lemma_open_keeps_tree(rules, sel, 0, start);
    assert(node_height(ph.vm.node) == node_height(node));
    let ma = CompState { ctx: ph.vm.ctx, asts: a.asts, deps: ph.vm.deps, out: ph.vm.out };
    let mb = CompState { asts: b.asts, ..ma };
    lemma_unlock_below(ph.vm.node, ma, mb, p, rules, base, path, low, high);
}

/// As `lemma_unlock_below`, for the walk of a list of siblings.
pub proof fn lemma_unlock_from(
    nodes: Seq<NodeV>,
    i: int,
    done: Seq<NodeV>,
    below_root: bool,
    a: CompState,
    b: CompState,
    p: usize,
    rules: Seq<RuleV>,
    base: Seq<char>,
    low: nat,
    high: nat,
)
    requires
        same_start(a, b, p),
        low <= high,
        comp_from(nodes, i, done, below_root, a, rules, base, low).error is None,
    ensures
        same_walk(
            comp_from(nodes, i, done, below_root, a, rules, base, low),
            comp_from(nodes, i, done, below_root, b, rules, base, high),
            p,
        ),
        comp_from(nodes, i, done, below_root, a, rules, base, low).st.asts.slots.len() == a.asts.slots.len(),
    decreases low, forest_weight(nodes), 1nat, nodes.len() - i,
{
    if 0 <= i < nodes.len() {
        lemma_forest_weight_upto(nodes, nodes.len());
        let joined = i + 1 < nodes.len() || below_root;
        lemma_unlock_one(nodes[i], i as usize, joined, a, b, p, rules, base, low, high);
        let one_a = comp_one(nodes[i], i as usize, joined, a, rules, base, low);
        let one_b = comp_one(nodes[i], i as usize, joined, b, rules, base, high);
        lemma_unlock_from(
            nodes,
            i + 1,
            done.push(one_a.nodes[0]),
            below_root,
            one_a.st,
            one_b.st,
            p,
            rules,
            base,
            low,
            high,
        );
    }
}

/// As `lemma_unlock_below`, for the walk below a list of wrappers.
pub proof fn lemma_unlock_wrappers(
    wrappers: Seq<NodeV>,
    j: int,
    done: Seq<NodeV>,
    a: CompState,
    b: CompState,
    p: usize,
    rules: Seq<RuleV>,
    base: Seq<char>,
    low: nat,
    high: nat,
)
    requires
        same_start(a, b, p),
        low <= high,
        comp_wrappers(wrappers, j, done, a, rules, base, low).error is None,
    ensures
        same_walk(
            comp_wrappers(wrappers, j, done, a, rules, base, low),
            comp_wrappers(wrappers, j, done, b, rules, base, high),
            p,
        ),
        comp_wrappers(wrappers, j, done, a, rules, base, low).st.asts.slots.len() == a.asts.slots.len(),
    decreases low, forest_weight(wrappers), 1nat, wrappers.len() - j,
{
    if 0 <= j < wrappers.len() {
        let w = wrappers[j];
        match w.children {
            Some(c) => {
                assert forall|k: int| 0 <= k < c.len() implies node_weight(#[trigger] c[k])
                    < node_weight(w) by {
                    lemma_child_weight(w, k);
                }
                lemma_forest_weight_below(c, wrappers, j);
                lemma_unlock_from(
                    c,
                    0,
                    Seq::empty(),
                    w.rule == Rule::Root,
                    a,
                    b,
                    p,
                    rules,
                    base,
                    low,
                    high,
                );
                let below_a = comp_from(c, 0, Seq::empty(), w.rule == Rule::Root, a, rules, base, low);
                let below_b = comp_from(
                    c,
                    0,
                    Seq::empty(),
                    w.rule == Rule::Root,
                    b,
                    rules,
                    base,
                    high,
                );
                lemma_unlock_wrappers(
                    wrappers,
                    j + 1,
                    done.push(NodeV { children: Some(below_a.nodes), ..w }),
                    below_a.st,
                    below_b.st,
                    p,
                    rules,
                    base,
                    low,
                    high,
                );
            },
            None => {
                lemma_unlock_wrappers(wrappers, j + 1, done.push(w), a, b, p, rules, base, low, high);
            },
        }
    }
}

/// Pointer following, for one node in any state: where compiling a node
/// that points at a target succeeds, compiling the same node with the
/// target's children as its own and no pointer succeeds too, and emits the
/// same text and leaves the same context and dependencies. The node is no
/// ellipsis, it and its target are both roots or both none, and the rules
/// hold no `EXEC`.
pub proof fn lemma_pointer_is_children(
    node: NodeV,
    p: crate::types::Pointer,
    target: NodeV,
    children: Seq<NodeV>,
    index: usize,
    joined: bool,
    st: CompState,
    rules: Seq<RuleV>,
    base: Seq<char>,
    budget: nat,
)
    requires
        node.pointer == Some(p),
        node.rule != Rule::Ellipsis,
        (node.rule == Rule::Root) == (target.rule == Rule::Root),
        p.0 < st.asts.slots.len(),
        st.asts.slots[p.0 as int] == Some(target),
        target.children == Some(children),
        rules_without_exec(rules),
        comp_one(node, index, joined, st, rules, base, budget).error is None,
    ensures
        ({
            let copy = NodeV { pointer: None, children: Some(children), ..node };
            let got = comp_one(node, index, joined, st, rules, base, budget);
            let same = comp_one(copy, index, joined, st, rules, base, budget);
            &&& same.error is None
            &&& got.st.out == same.st.out
            &&& got.st.ctx == same.st.ctx
            &&& got.st.deps == same.st.deps
        }),
{
    let copy = NodeV { pointer: None, children: Some(children), ..node };
    let inside = CompState { asts: st.asts.locked(p.0), ..st };
    lemma_one_live(node, p, index, joined, st, rules, base, budget);
    lemma_pointer_node(node, p, target, children, index, joined, st, rules, base, budget);
    lemma_locked_apart_self(st.asts, p.0);
    lemma_unlock_one(
        copy,
        index,
        joined,
        inside,
        st,
        p.0,
        rules,
        base,
        (budget - 1) as nat,
        budget,
    );
}

/// A node with a pointer compiles only where the budget is not used up.
pub proof fn lemma_one_live(
    node: NodeV,
    p: crate::types::Pointer,
    index: usize,
    joined: bool,
    st: CompState,
    rules: Seq<RuleV>,
    base: Seq<char>,
    budget: nat,
)
    requires
        node.pointer == Some(p),
        comp_one(node, index, joined, st, rules, base, budget).error is None,
    ensures
        budget > 0,
{
    let path = node.path(base);
    let sel = selected(rules, path);
    let start = phase_of(
        Vm { ctx: CtxV { parent: Some(path), index, ..st.ctx }, node, deps: st.deps, out: st.out },
    );
    let ph = open_from(rules, sel, 0, start);
    lemma_open_keeps_tree(rules, sel, 0, start);
    lemma_below_live(
        ph.vm.node,
        p,
        CompState { ctx: ph.vm.ctx, asts: st.asts, deps: ph.vm.deps, out: ph.vm.out },
        rules,
        base,
        path,
        budget,
    );
}

/// An AST map with a slot emptied is the map but for that slot.
pub proof fn lemma_locked_apart_self(asts: AstV, p: usize)
    requires
        p < asts.slots.len(),
    ensures
        apart_at(asts.locked(p), asts, p),
{
}

/// A walk that succeeds gives as many nodes as it was given.
pub proof fn lemma_comp_from_len(
    nodes: Seq<NodeV>,
    i: int,
    done: Seq<NodeV>,
    below_root: bool,
    st: CompState,
    rules: Seq<RuleV>,
    base: Seq<char>,
    budget: nat,
)
    requires
        0 <= i <= nodes.len(),
        done.len() == i,
    ensures
        comp_from(nodes, i, done, below_root, st, rules, base, budget).error is None ==> comp_from(
            nodes,
            i,
            done,
            below_root,
            st,
            rules,
            base,
            budget,
        ).nodes.len() == nodes.len(),
    decreases nodes.len() - i,
{
    if i < nodes.len() {
        let one = comp_one(
            nodes[i],
            i as usize,
            i + 1 < nodes.len() || below_root,
            st,
            rules,
            base,
            budget,
        );
        if one.error is None {
            lemma_comp_from_len(
                nodes,
                i + 1,
                done.push(one.nodes[0]),
                below_root,
                one.st,
                rules,
                base,
                budget,
            );
        }
    }
}

/// No more slots are free than there are.
pub proof fn lemma_free_bound(slots: Seq<Option<NodeV>>, k: nat)
    requires
        k <= slots.len(),
    ensures
        free_upto(slots, k) <= k,
    decreases k,
{
    if k > 0 {
        lemma_free_bound(slots, (k - 1) as nat);
    }
}

} // verus!
