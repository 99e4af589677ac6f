//! The preprocessor: implicit headers, paragraphs, include links and ids.
use crate::ast::{
    copy_props, forest_height, forest_height_upto, forest_size, forest_weight, lemma_child_weight,
    lemma_children_view, lemma_forest_size, lemma_forest_weight_below, lemma_forest_weight_upto,
    lemma_same_shape_height, node_height, node_weight, nodes_view, same_shape, Node, NodeV, Props,
    Rule,
};
use crate::compiler::lang::{
    batch_settings, close_from, lemma_open_keeps_tree, merge_settings, open_from, phase_of,
    selected, Lang, Vm,
};
use crate::compiler::rule::{Context, CtxV, LangSettings, RuleV};
use crate::text::{
    cat, chars_of, copy_str, ends_with, lemma_lex_lt_irreflexive, lemma_lex_lt_transitive, lex_less,
    lex_lt, rsplit_once, split_once, starts_with, str_eq,
};
use crate::types::{
    deps_view, deps_with, insert_dependency, AstMap, AstV, Dependency, DependencyV, LibError,
    LibErrorV, LocationMap, Pointer,
};
use vstd::prelude::*;

verus! {

/// The header that a marker implies.
pub open spec fn implied_header(marker: Option<Seq<char>>) -> Option<Seq<char>> {
    match marker {
        Some(m) => if m == "#"@ {
            Some("HEADING"@)
        } else if m == "*"@ {
            Some("LIST"@)
        } else if m == "   "@ {
            Some("CODE"@)
        } else {
            None
        },
        None => None,
    }
}

/// `node` with the header that its marker implies, unless it has it already.
pub open spec fn with_implied_header(node: NodeV) -> NodeV {
    match implied_header(node.marker) {
        Some(h) => {
            let have = match node.headers {
                Some(hs) => hs,
                None => Seq::empty(),
            };
            NodeV {
                headers: Some(
                    if have.contains(h) {
                        have
                    } else {
                        have.push(h)
                    },
                ),
                ..node
            }
        },
        None => node,
    }
}

/// Adds to a node the header that its marker implies: `HEADING` for `#`,
/// `LIST` for `*`, `CODE` for three spaces. A header that is there already
/// is not added again.
pub fn preprocess_headers(node: &mut Node)
    ensures
        final(node)@ == with_implied_header(old(node)@),
{
    proof {
        lemma_children_view(*node);
    }
    let header: Option<&str> = match &node.marker {
        Some(m) => if str_eq(m.as_str(), "#") {
            Some("HEADING")
        } else if str_eq(m.as_str(), "*") {
            Some("LIST")
        } else if str_eq(m.as_str(), "   ") {
            Some("CODE")
        } else {
            None
        },
        None => None,
    };
    match header {
        Some(h) => {
            let mut headers: Vec<String> = match node.headers.take() {
                Some(hs) => hs,
                None => {
                    let v: Vec<String> = Vec::new();
                    assert(v.deep_view() =~= Seq::<Seq<char>>::empty());
                    v
                },
            };
            let ghost have = headers.deep_view();
            let found = crate::strmap::find_key(&headers, h).is_some();
            proof {
                crate::strmap::lemma_position(have, h@);
            }
            if !found {
                headers.push(copy_str(h));
                assert(headers.deep_view() =~= have.push(h@));
            }
            node.headers = Some(headers);
            proof {
                lemma_children_view(*node);
            }
        },
        None => {},
    }
}

/// A line that carries text.
pub open spec fn is_text_line(n: NodeV) -> bool {
    n.rule == Rule::Line && n.value is Some && n.value->Some_0.len() > 0
}

/// The paragraph that one line of text begins.
pub open spec fn paragraph_of(line: NodeV) -> NodeV {
    NodeV { value: line.value, children: Some(seq![line]), ..NodeV::empty(Rule::Paragraph) }
}

/// The paragraph `par` with one more line of text.
pub open spec fn paragraph_with(par: NodeV, line: NodeV) -> NodeV {
    NodeV {
        value: Some(par.value->Some_0 + " "@ + line.value->Some_0),
        children: Some(par.children->Some_0.push(line)),
        ..par
    }
}

/// `children` with every run of neighbouring lines of text folded into one
/// paragraph: its value is the lines' values joined by single spaces, its
/// children are the lines. Every other child stays as it is, and ends the
/// run before it.
pub open spec fn folded(children: Seq<NodeV>) -> Seq<NodeV>
    decreases children.len(),
{
    if children.len() == 0 {
        Seq::empty()
    } else {
        let before = folded(children.drop_last());
        let last = children.last();
        if !is_text_line(last) {
            before.push(last)
        } else if children.len() >= 2 && is_text_line(children[children.len() - 2])
            && before.len() > 0 {
            before.drop_last().push(paragraph_with(before.last(), last))
        } else {
            before.push(paragraph_of(last))
        }
    }
}

/// The paragraph over a run of lines of text: its value is the values of
/// the lines joined by single spaces, its children are the lines.
pub open spec fn paragraph_over(lines: Seq<NodeV>) -> NodeV {
    NodeV {
        value: Some(crate::text::join(lines.map_values(|n: NodeV| n.value->Some_0), " "@)),
        children: Some(lines),
        ..NodeV::empty(Rule::Paragraph)
    }
}

/// A run of neighbouring lines of text folds into one paragraph over them.
pub proof fn lemma_fold_run(lines: Seq<NodeV>)
    requires
        lines.len() > 0,
        forall|i: int| 0 <= i < lines.len() ==> is_text_line(#[trigger] lines[i]),
    ensures
        folded(lines) == seq![paragraph_over(lines)],
    decreases lines.len(),
{
    let values = lines.map_values(|n: NodeV| n.value->Some_0);
    if lines.len() == 1 {
        assert(folded(lines.drop_last()) =~= Seq::<NodeV>::empty());
        assert(lines =~= seq![lines[0]]);
        assert(values =~= seq![lines[0].value->Some_0]);
        assert(paragraph_of(lines[0]).value == Some(crate::text::join(values, " "@)));
        assert(folded(lines) =~= seq![paragraph_over(lines)]);
    } else {
        let init = lines.drop_last();
        let last = lines.last();
        lemma_fold_run(init);
        let before = folded(init);
        assert(is_text_line(lines[lines.len() - 2]));
        let init_values = init.map_values(|n: NodeV| n.value->Some_0);
        assert(values.drop_last() =~= init_values);
        assert(values.last() == last.value->Some_0);
        assert(init.push(last) =~= lines);
        let grown = paragraph_with(before.last(), last);
        assert(grown == paragraph_over(lines));
        assert(folded(lines) =~= seq![paragraph_over(lines)]);
    }
}

/// A child that is no line of text stays as it is and ends the run
/// before it: what comes after it is folded by itself.
pub proof fn lemma_fold_break(before: Seq<NodeV>, stop: NodeV)
    requires
        !is_text_line(stop),
    ensures
        folded(before.push(stop)) == folded(before).push(stop),
{
    assert(before.push(stop).drop_last() =~= before);
}

/// What paragraph folding makes of a section: nothing without the
/// `is_paragraphable` setting, and else the children folded.
pub open spec fn with_paragraphs(
    node: NodeV,
    set: crate::compiler::rule::LangSettings,
) -> NodeV {
    if set.is_paragraphable && node.children is Some {
        NodeV { children: Some(folded(node.children->Some_0)), ..node }
    } else {
        node
    }
}

/// Whether `n` is a line that carries text.
fn text_line(n: &Node) -> (r: bool)
    ensures
        r == is_text_line(n@),
{
    proof {
        lemma_children_view(*n);
    }
    match n.rule {
        Rule::Line => match &n.value {
            Some(v) => !v.as_str().is_empty(),
            None => false,
        },
        _ => false,
    }
}

/// Folds runs of neighbouring lines of text in a section into paragraphs.
pub fn preprocess_paragraphs(node: &mut Node, settings: &crate::compiler::rule::LangSettings)
    ensures
        final(node)@ == with_paragraphs(old(node)@, *settings),
{
    proof {
        lemma_children_view(*node);
    }
    if !settings.is_paragraphable {
        return ;
    }
    let children = match node.children.take() {
        Some(c) => c,
        None => {
            proof {
                lemma_children_view(*node);
            }
            return ;
        },
    };
    let ghost all = nodes_view(children@);
    let n = children.len();
    // turn the children round, so that they come off the end in order
    let mut children = children;
    let mut source: Vec<Node> = Vec::new();
    while children.len() > 0
        invariant
            children.len() + source.len() == n,
            n == all.len(),
            forall|j: int| 0 <= j < children.len() ==> children[j]@ == all[j],
            forall|j: int| 0 <= j < source.len() ==> source[j]@ == all[n - 1 - j],
        decreases children.len(),
    {
        match children.pop() {
            Some(c) => {
                source.push(c);
            },
            None => {},
        }
    }
    let mut res: Vec<Node> = Vec::new();
    let mut in_run = false;
    let mut i: usize = 0;
    assert(nodes_view(res@) =~= folded(all.take(0)));
    while i < n
        invariant
            i <= n,
            n == all.len(),
            source.len() == n - i,
            forall|j: int| 0 <= j < source.len() ==> source[j]@ == all[n - 1 - j],
            nodes_view(res@) == folded(all.take(i as int)),
            in_run == (i > 0 && is_text_line(all[i - 1])),
            in_run ==> res.len() > 0,
        decreases n - i,
    {
        let ghost before = nodes_view(res@);
        let right = match source.pop() {
            Some(r) => r,
            None => Node::empty(Rule::Line),
        };
        proof {
            assert(right@ == all[i as int]);
            let next = all.take(i + 1);
            assert(next.drop_last() =~= all.take(i as int));
            assert(next.last() == all[i as int]);
            if i > 0 {
                assert(next[next.len() - 2] == all[i - 1]);
            }
        }
        if !text_line(&right) {
            res.push(right);
            assert(nodes_view(res@) =~= before.push(right@));
            in_run = false;
        } else if in_run {
            let mut left = match res.pop() {
                Some(l) => l,
                None => Node::empty(Rule::Paragraph),
            };
            assert(nodes_view(res@) =~= before.drop_last());
            assert(left@ == before.last());
            proof {
                lemma_children_view(left);
                lemma_children_view(right);
                lemma_folded_run(all.take(i as int));
            }
            let ghost left0 = left@;
            let text = match (&left.value, &right.value) {
                (Some(l), Some(r)) => cat(cat(l.as_str(), " ").as_str(), r.as_str()),
                _ => String::new(),
            };
            left.value = Some(text);
            let ghost kids0 = left.children;
            match left.children.take() {
                Some(mut kids) => {
                    kids.push(right);
                    assert(nodes_view(kids@) =~= nodes_view(kids0->Some_0@).push(right@));
                    left.children = Some(kids);
                },
                None => {},
            }
            proof {
                lemma_children_view(left);
                assert(left@.children->Some_0 =~= left0.children->Some_0.push(right@));
                assert(left@ == paragraph_with(left0, right@));
            }
            let ghost popped = nodes_view(res@);
            res.push(left);
            assert(nodes_view(res@) =~= popped.push(left@));
            in_run = true;
        } else {
            proof {
                lemma_children_view(right);
            }
            let mut par = Node::empty(Rule::Paragraph);
            par.value = match &right.value {
                Some(v) => Some(copy_str(v.as_str())),
                None => None,
            };
            let mut kids: Vec<Node> = Vec::new();
            let ghost right_v = right@;
            kids.push(right);
            assert(nodes_view(kids@) =~= seq![right_v]);
            par.children = Some(kids);
            proof {
                lemma_children_view(par);
                assert(par@ == paragraph_of(right_v));
            }
            res.push(par);
            assert(nodes_view(res@) =~= before.push(par@));
            in_run = true;
        }
        i += 1;
    }
    assert(all.take(n as int) =~= all);
    node.children = Some(res);
    proof {
        lemma_children_view(*node);
    }
}

/// After a line of text, the folded list ends in a paragraph with a value
/// and children.
pub proof fn lemma_folded_run(children: Seq<NodeV>)
    requires
        children.len() > 0,
        is_text_line(children.last()),
    ensures
        folded(children).len() > 0,
        folded(children).last().rule == Rule::Paragraph,
        folded(children).last().value is Some,
        folded(children).last().children is Some,
    decreases children.len(),
{
    if children.len() >= 2 && is_text_line(children[children.len() - 2]) {
        assert(children.drop_last().last() == children[children.len() - 2]);
        lemma_folded_run(children.drop_last());
    }
}

/// `nodes` with each paragraph replaced by its children.
pub open spec fn unfolded(nodes: Seq<NodeV>) -> Seq<NodeV>
    decreases nodes.len(),
{
    if nodes.len() == 0 {
        Seq::empty()
    } else {
        let before = unfolded(nodes.drop_last());
        let last = nodes.last();
        if last.rule == Rule::Paragraph && last.children is Some {
            before + last.children->Some_0
        } else {
            before.push(last)
        }
    }
}

/// What is no line of text among `nodes`, in order.
pub open spec fn breaks_of(nodes: Seq<NodeV>) -> Seq<NodeV>
    decreases nodes.len(),
{
    if nodes.len() == 0 {
        Seq::empty()
    } else if is_text_line(nodes.last()) {
        breaks_of(nodes.drop_last())
    } else {
        breaks_of(nodes.drop_last()).push(nodes.last())
    }
}

/// What is no paragraph among `nodes`, in order.
pub open spec fn beside_paragraphs(nodes: Seq<NodeV>) -> Seq<NodeV>
    decreases nodes.len(),
{
    if nodes.len() == 0 {
        Seq::empty()
    } else if nodes.last().rule == Rule::Paragraph {
        beside_paragraphs(nodes.drop_last())
    } else {
        beside_paragraphs(nodes.drop_last()).push(nodes.last())
    }
}

/// Folding can be undone, and it moves nothing but lines of text. Of
/// children among which there is no paragraph yet: replacing each
/// paragraph of the folded list by its children gives the children back;
/// every paragraph of the folded list holds lines of text and nothing
/// else; and what is no line of text, such as an ellipsis or an empty
/// line, is a child as before, unchanged and in the same order.
pub proof fn lemma_fold_undone(children: Seq<NodeV>)
    requires
        forall|i: int| 0 <= i < children.len() ==> (#[trigger] children[i]).rule != Rule::Paragraph,
    ensures
        unfolded(folded(children)) == children,
        beside_paragraphs(folded(children)) == breaks_of(children),
        forall|j: int|
            0 <= j < folded(children).len() && (#[trigger] folded(children)[j]).rule
                == Rule::Paragraph ==> {
                &&& folded(children)[j].children is Some
                &&& forall|k: int|
                    0 <= k < folded(children)[j].children->Some_0.len() ==> is_text_line(
                        #[trigger] folded(children)[j].children->Some_0[k],
                    )
            },
    decreases children.len(),
{
    if children.len() > 0 {
        let init = children.drop_last();
        let last = children.last();
        lemma_fold_undone(init);
        let before = folded(init);
        let after = folded(children);
        assert(init.push(last) =~= children);
        if !is_text_line(last) {
            assert(after.drop_last() =~= before);
            assert(after.last() == last);
        } else if children.len() >= 2 && is_text_line(children[children.len() - 2])
            && before.len() > 0 {
            assert(init.last() == children[children.len() - 2]);
            lemma_folded_run(init);
            let par = before.last();
            let lines = par.children->Some_0;
            let grown = paragraph_with(par, last);
            assert(after.drop_last() =~= before.drop_last());
            assert(after.last() == grown);
            assert(grown.children == Some(lines.push(last)));
            assert(unfolded(before) == unfolded(before.drop_last()) + lines);
            assert(unfolded(before.drop_last()) + lines.push(last) =~= (unfolded(
                before.drop_last(),
            ) + lines).push(last));
            assert(beside_paragraphs(before) == beside_paragraphs(before.drop_last()));
            assert forall|j: int| 0 <= j < after.len() && (#[trigger] after[j]).rule
                == Rule::Paragraph implies {
                &&& after[j].children is Some
                &&& forall|k: int|
                    0 <= k < after[j].children->Some_0.len() ==> is_text_line(
                        #[trigger] after[j].children->Some_0[k],
                    )
            } by {
                if j < after.len() - 1 {
                    assert(after[j] == before[j]);
                } else {
                    assert(before[before.len() - 1] == par);
                    assert forall|k: int| 0 <= k < lines.push(last).len() implies is_text_line(
                        #[trigger] lines.push(last)[k],
                    ) by {
                        if k < lines.len() {
                            assert(lines.push(last)[k] == lines[k]);
                        }
                    }
                }
            }
        } else {
            let par = paragraph_of(last);
            assert(after.drop_last() =~= before);
            assert(after.last() == par);
            assert(unfolded(before) + seq![last] =~= unfolded(before).push(last));
            assert forall|j: int| 0 <= j < after.len() && (#[trigger] after[j]).rule
                == Rule::Paragraph implies {
                &&& after[j].children is Some
                &&& forall|k: int|
                    0 <= k < after[j].children->Some_0.len() ==> is_text_line(
                        #[trigger] after[j].children->Some_0[k],
                    )
            } by {
                if j < after.len() - 1 {
                    assert(after[j] == before[j]);
                }
            }
        }
    } else {
        assert(folded(children) =~= Seq::<NodeV>::empty());
        assert(unfolded(folded(children)) =~= children);
    }
}

/// The least, in lexicographic order, of the first `n` elements of `paths`
/// that satisfy `pred`.
pub open spec fn least_match(
    paths: Seq<Seq<char>>,
    pred: spec_fn(Seq<char>) -> bool,
    n: int,
) -> Option<Seq<char>>
    decreases n,
{
    if n <= 0 {
        None
    } else {
        let before = least_match(paths, pred, n - 1);
        let k = paths[n - 1];
        if !pred(k) {
            before
        } else {
            match before {
                Some(b) => if lex_lt(k, b) {
                    Some(k)
                } else {
                    before
                },
                None => Some(k),
            }
        }
    }
}

/// The first segment of a context that has more than one.
pub open spec fn sibling_root(context: Seq<char>) -> Option<Seq<char>> {
    match crate::text::find_char(context, '/') {
        Some(i) => Some(context.take(i)),
        None => None,
    }
}

/// The candidates of each round of the resolution of `path` in `context`:
/// first the entries that begin with the context, second the others that
/// begin with the context's first segment `root`, third all the others; in
/// each round only those that end with `path`.
pub open spec fn round(
    tier: int,
    path: Seq<char>,
    context: Seq<char>,
    root: Seq<char>,
) -> spec_fn(Seq<char>) -> bool {
    |k: Seq<char>|
        if tier == 1 {
            context.is_prefix_of(k) && path.is_suffix_of(k)
        } else if tier == 2 {
            !context.is_prefix_of(k) && root.is_prefix_of(k) && path.is_suffix_of(k)
        } else {
            !context.is_prefix_of(k) && path.is_suffix_of(k)
        }
}

/// The entry of `paths` that `path` resolves to in `context`: the least
/// candidate of the first round that has one.
pub open spec fn resolved(path: Seq<char>, paths: Seq<Seq<char>>, context: Seq<char>) -> Option<
    Seq<char>,
> {
    let n = paths.len() as int;
    let first = least_match(paths, round(1, path, context, Seq::empty()), n);
    let second = match sibling_root(context) {
        Some(root) => least_match(paths, round(2, path, context, root), n),
        None => None,
    };
    if first is Some {
        first
    } else if second is Some {
        second
    } else {
        least_match(paths, round(3, path, context, Seq::empty()), n)
    }
}

/// What `least_match` finds is a candidate among the first `n` entries and
/// no candidate among them is below it; it finds none only where there is none.
pub proof fn lemma_least_match(paths: Seq<Seq<char>>, pred: spec_fn(Seq<char>) -> bool, n: int)
    requires
        0 <= n <= paths.len(),
    ensures
        match least_match(paths, pred, n) {
            Some(m) => {
                &&& pred(m)
                &&& exists|j: int| 0 <= j < n && paths[j] == m
                &&& forall|j: int| 0 <= j < n && pred(#[trigger] paths[j]) ==> !lex_lt(paths[j], m)
            },
            None => forall|j: int| 0 <= j < n ==> !pred(#[trigger] paths[j]),
        },
    decreases n,
{
    if n > 0 {
        lemma_least_match(paths, pred, n - 1);
        let before = least_match(paths, pred, n - 1);
        let k = paths[n - 1];
        if pred(k) {
            lemma_lex_lt_irreflexive(k);
            match before {
                Some(b) => {
                    if lex_lt(k, b) {
                        assert forall|j: int| 0 <= j < n && pred(#[trigger] paths[j]) implies !lex_lt(
                            paths[j],
                            k,
                        ) by {
                            if j < n - 1 && lex_lt(paths[j], k) {
                                lemma_lex_lt_transitive(paths[j], k, b);
                            }
                        }
                    } else {
                        let j0 = choose|j: int| 0 <= j < n - 1 && paths[j] == b;
                        assert(0 <= j0 < n && paths[j0] == b);
                    }
                },
                None => {},
            }
        } else {
            match before {
                Some(b) => {
                    let j0 = choose|j: int| 0 <= j < n - 1 && paths[j] == b;
                    assert(0 <= j0 < n && paths[j0] == b);
                },
                None => {},
            }
        }
    }
}

/// Resolution goes by rounds: an entry within the context wins over one
/// beside it, one below the context's first segment over one elsewhere,
/// and inside a round the least entry wins. The result always ends with
/// `path`; there is none only where no entry ends with `path`.
pub proof fn lemma_resolution_order(path: Seq<char>, paths: Seq<Seq<char>>, context: Seq<char>)
    ensures
        match resolved(path, paths, context) {
            Some(m) => {
                &&& paths.contains(m)
                &&& path.is_suffix_of(m)
                &&& forall|k: Seq<char>|
                    paths.contains(k) && path.is_suffix_of(k) && context.is_prefix_of(k)
                        ==> context.is_prefix_of(m) && !lex_lt(k, m)
                &&& !context.is_prefix_of(m) ==> forall|k: Seq<char>|
                    #![trigger paths.contains(k)]
                    paths.contains(k) && path.is_suffix_of(k) && sibling_root(context) is Some
                        && sibling_root(context)->Some_0.is_prefix_of(k)
                        ==> sibling_root(context)->Some_0.is_prefix_of(m) && !lex_lt(k, m)
                &&& !context.is_prefix_of(m) && !(sibling_root(context) is Some && sibling_root(
                    context,
                )->Some_0.is_prefix_of(m)) ==> forall|k: Seq<char>|
                    paths.contains(k) && path.is_suffix_of(k) ==> !lex_lt(k, m)
            },
            None => forall|k: Seq<char>| paths.contains(k) ==> !path.is_suffix_of(k),
        },
{
    let n = paths.len() as int;
    let within = round(1, path, context, Seq::empty());
    let anywhere = round(3, path, context, Seq::empty());
    lemma_least_match(paths, within, n);
    lemma_least_match(paths, anywhere, n);
    match sibling_root(context) {
        Some(root) => {
            lemma_least_match(paths, round(2, path, context, root), n);
        },
        None => {},
    }
    assert forall|k: Seq<char>| paths.contains(k) implies exists|j: int|
        0 <= j < n && #[trigger] paths[j] == k by {
        let j = choose|j: int| 0 <= j < paths.len() && paths[j] == k;
        assert(paths[j] == k);
    }
}

/// Whether `k` is a candidate of the round `tier`.
fn in_round(k: &str, tier: u8, path: &str, context: &str, root: &str) -> (r: bool)
    ensures
        r == round(tier as int, path@, context@, root@)(k@),
{
    let inside = starts_with(k, context);
    if tier == 1 {
        inside && ends_with(k, path)
    } else if tier == 2 {
        !inside && starts_with(k, root) && ends_with(k, path)
    } else {
        !inside && ends_with(k, path)
    }
}

/// The least candidate of a round, as an index into `paths`.
fn least_of_round(paths: &Vec<String>, tier: u8, path: &str, context: &str, root: &str) -> (r:
    Option<usize>)
    ensures
        match r {
            Some(i) => i < paths.len() && least_match(
                paths.deep_view(),
                round(tier as int, path@, context@, root@),
                paths.len() as int,
            ) == Some(paths[i as int]@),
            None => least_match(
                paths.deep_view(),
                round(tier as int, path@, context@, root@),
                paths.len() as int,
            ) is None,
        },
{
    let mut best: Option<usize> = None;
    let mut i: usize = 0;
    let ghost pred = round(tier as int, path@, context@, root@);
    while i < paths.len()
        invariant
            i <= paths.len(),
            pred == round(tier as int, path@, context@, root@),
            match best {
                Some(b) => b < i && least_match(paths.deep_view(), pred, i as int) == Some(
                    paths[b as int]@,
                ),
                None => least_match(paths.deep_view(), pred, i as int) is None,
            },
        decreases paths.len() - i,
    {
        assert(paths.deep_view()[i as int] == paths[i as int]@);
        if in_round(paths[i].as_str(), tier, path, context, root) {
            match best {
                Some(b) => {
                    let k = chars_of(paths[i].as_str());
                    let m = chars_of(paths[b].as_str());
                    if lex_less(&k, &m) {
                        best = Some(i);
                    }
                },
                None => {
                    best = Some(i);
                },
            }
        }
        i += 1;
    }
    best
}

/// Resolves `path` to an entry of `paths`: an entry that ends with `path`,
/// taken from those that begin with `context` where there is one, else
/// from those that begin with the first segment of `context`, else from
/// all; the least in lexicographic order of its round.
pub fn resolve_path(path: &str, paths: &Vec<String>, context: &str) -> (r: Option<String>)
    ensures
        r.deep_view() == resolved(path@, paths.deep_view(), context@),
{
    proof {
        reveal_strlit("");
        assert(""@ =~= Seq::<char>::empty());
    }
    match least_of_round(paths, 1, path, context, "") {
        Some(i) => {
            return Some(copy_str(paths[i].as_str()));
        },
        None => {},
    }
    match crate::text::split_once_at(context, '/') {
        Some((root, _)) => {
            match least_of_round(paths, 2, path, context, root.as_str()) {
                Some(i) => {
                    return Some(copy_str(paths[i].as_str()));
                },
                None => {},
            }
        },
        None => {},
    }
    match least_of_round(paths, 3, path, context, "") {
        Some(i) => Some(copy_str(paths[i].as_str())),
        None => None,
    }
}

/// The entries of `paths` that begin with `prefix`, without it.
pub open spec fn stripped(paths: Seq<Seq<char>>, prefix: Seq<char>) -> Seq<Seq<char>>
    decreases paths.len(),
{
    if paths.len() == 0 {
        Seq::empty()
    } else if prefix.is_prefix_of(paths.last()) {
        stripped(paths.drop_last(), prefix).push(paths.last().skip(prefix.len() as int))
    } else {
        stripped(paths.drop_last(), prefix)
    }
}

/// Resolves `path` among the entries of `paths` that have the scheme
/// `scheme`, each taken without `scheme:`.
pub fn resolve_scheme_path(path: &str, scheme: &str, paths: &Vec<String>, context: &str) -> (r:
    Option<String>)
    ensures
        r.deep_view() == resolved(path@, stripped(paths.deep_view(), scheme@ + ":"@), context@),
{
    let prefix = cat(scheme, ":");
    let pv = chars_of(prefix.as_str());
    let mut rest: Vec<String> = Vec::new();
    let mut i: usize = 0;
    while i < paths.len()
        invariant
            i <= paths.len(),
            pv@ == prefix@,
            rest.deep_view() == stripped(paths.deep_view().take(i as int), prefix@),
        decreases paths.len() - i,
    {
        let ghost before = rest.deep_view();
        let k = chars_of(paths[i].as_str());
        proof {
            let next = paths.deep_view().take(i + 1);
            assert(next.drop_last() =~= paths.deep_view().take(i as int));
            assert(next.last() == paths[i as int]@);
            assert(crate::text::occurs_at(k@, 0, pv@) == pv@.is_prefix_of(k@));
        }
        if crate::text::has_at(&k, 0, &pv) {
            let tail = crate::text::string_of_range(&k, pv.len(), k.len());
            assert(k@.subrange(pv.len() as int, k.len() as int) =~= k@.skip(pv.len() as int));
            rest.push(tail);
            assert(rest.deep_view() =~= before.push(k@.skip(pv.len() as int)));
        }
        i += 1;
    }
    assert(paths.deep_view().take(paths.len() as int) =~= paths.deep_view());
    resolve_path(path, &rest, context)
}

/// `nodes` with `p` as the pointer of their first ellipsis, from node `i`
/// on and in document order; nodes that have a pointer or a `src` property
/// are passed over with all that is below them. `None` where there is no
/// such ellipsis.
pub open spec fn ellipsis_pointed(nodes: Seq<NodeV>, i: int, p: Pointer) -> Option<Seq<NodeV>>
    decreases nodes, nodes.len() - i,
{
    if i < 0 || i >= nodes.len() {
        None
    } else {
        let n = nodes[i];
        if n.pointer is Some || n.find_prop("src"@) is Some {
            ellipsis_pointed(nodes, i + 1, p)
        } else if n.rule == Rule::Ellipsis {
            Some(nodes.update(i, NodeV { pointer: Some(p), ..n }))
        } else {
            match n.children {
                Some(c) => match ellipsis_pointed(c, 0, p) {
                    Some(c2) => Some(nodes.update(i, NodeV { children: Some(c2), ..n })),
                    None => ellipsis_pointed(nodes, i + 1, p),
                },
                None => ellipsis_pointed(nodes, i + 1, p),
            }
        }
    }
}

/// Gives the first ellipsis among `nodes` the pointer `p`, and tells
/// whether there was one.
pub fn point_ellipsis(nodes: &mut Vec<Node>, p: Pointer) -> (found: bool)
    ensures
        match ellipsis_pointed(nodes_view(old(nodes)@), 0, p) {
            Some(c2) => found && nodes_view(final(nodes)@) == c2,
            None => !found && nodes_view(final(nodes)@) == nodes_view(old(nodes)@),
        },
    decreases forest_size(nodes_view(old(nodes)@)),
{
    let ghost all = nodes_view(nodes@);
    let mut i: usize = 0;
    while i < nodes.len()
        invariant
            i <= nodes.len(),
            all == nodes_view(old(nodes)@),
            all == nodes_view(nodes@),
            ellipsis_pointed(all, i as int, p) == ellipsis_pointed(all, 0, p),
        decreases nodes.len() - i,
    {
        proof {
            lemma_children_view(nodes[i as int]);
            assert(all[i as int] == nodes[i as int]@);
        }
        let skip = nodes[i].pointer.is_some() || nodes[i].find_prop("src").is_some();
        if skip {
            i += 1;
        } else if nodes[i].rule == Rule::Ellipsis {
            nodes[i].pointer = Some(p);
            proof {
                lemma_children_view(nodes[i as int]);
                assert(nodes_view(nodes@) =~= all.update(
                    i as int,
                    NodeV { pointer: Some(p), ..all[i as int] },
                ));
            }
            return true;
        } else {
            let ghost kids0 = nodes[i as int].children;
            match nodes[i].children.take() {
                Some(mut kids) => {
                    proof {
                        assert(kids0->Some_0 == kids);
                        assert(all[i as int].children == Some(nodes_view(kids@)));
                        lemma_forest_size(all, i as int);
                    }
                    let found = point_ellipsis(&mut kids, p);
                    nodes[i].children = Some(kids);
                    proof {
                        lemma_children_view(nodes[i as int]);
                    }
                    if found {
                        proof {
                            assert(nodes_view(nodes@) =~= all.update(
                                i as int,
                                NodeV { children: Some(nodes_view(kids@)), ..all[i as int] },
                            ));
                        }
                        return true;
                    }
                    proof {
                        assert(nodes[i as int]@ == all[i as int]);
                        assert(nodes_view(nodes@) =~= all);
                    }
                },
                None => {},
            }
            i += 1;
        }
    }
    false
}

/// The scheme that a link without one is taken to have.
pub open spec fn default_scheme(is_src: bool, set: LangSettings) -> Seq<char> {
    if is_src {
        match set.default_src {
            Some(d) => d@,
            None => "parse"@,
        }
    } else {
        match set.default_ref {
            Some(d) => d@,
            None => "write"@,
        }
    }
}

/// What is left of a link's path once it is resolved: the path as it is
/// where the scheme said `?`; else the fragment is split off, the rest is
/// resolved among the indexed locations, and the result, with the
/// fragment behind it, is resolved once more among the URIs of the AST map
/// that have the scheme.
pub open spec fn link_path(
    scheme: Seq<char>,
    is_resolved: bool,
    path: Seq<char>,
    locs: Seq<Seq<char>>,
    uris: Seq<Seq<char>>,
    context: Seq<char>,
) -> Seq<char> {
    if is_resolved {
        path
    } else {
        let (p, fragment) = match rsplit_once(path, '#') {
            Some((a, b)) => (a, b),
            None => (path, Seq::<char>::empty()),
        };
        let prefix = match resolved(p, locs, context) {
            Some(x) => x,
            None => Seq::<char>::empty(),
        };
        let first = if fragment.len() == 0 {
            if prefix.len() == 0 {
                context + "#"@ + p
            } else {
                prefix
            }
        } else {
            if prefix.len() == 0 {
                "#"@ + fragment
            } else {
                prefix + "#"@ + fragment
            }
        };
        match resolved(first, stripped(uris, scheme + ":"@), context) {
            Some(x) => x,
            None => first,
        }
    }
}

/// The URI that the value of a `src` or `ref` property stands for.
pub open spec fn link_uri(
    value: Seq<char>,
    is_src: bool,
    set: LangSettings,
    locs: Seq<Seq<char>>,
    uris: Seq<Seq<char>>,
    context: Seq<char>,
) -> Seq<char> {
    let (raw_scheme, path) = match split_once(value, ':') {
        Some((s, p)) => (s, p),
        None => (default_scheme(is_src, set), value),
    };
    let (scheme, is_resolved) = match split_once(raw_scheme, '?') {
        Some((s, _)) => (s, true),
        None => (raw_scheme, false),
    };
    scheme + ":"@ + link_path(scheme, is_resolved, path, locs, uris, context)
}

/// The URI that the value of a `src` or `ref` property stands for.
pub fn resolve_link(
    value: &str,
    is_src: bool,
    settings: &LangSettings,
    locs: &LocationMap,
    asts: &AstMap,
    context: &str,
) -> (r: String)
    ensures
        r@ == link_uri(value@, is_src, *settings, locs.keys.deep_view(), asts@.uris, context@),
{
    let (raw_scheme, path) = match crate::text::split_once_at(value, ':') {
        Some((s, p)) => (s, p),
        None => {
            let d = if is_src {
                match settings.default_src {
                    Some(d) => copy_str(d),
                    None => copy_str("parse"),
                }
            } else {
                match settings.default_ref {
                    Some(d) => copy_str(d),
                    None => copy_str("write"),
                }
            };
            (d, copy_str(value))
        },
    };
    let (scheme, is_resolved) = match crate::text::split_once_at(raw_scheme.as_str(), '?') {
        Some((s, _)) => (s, true),
        None => (raw_scheme, false),
    };
    let uri_path = if is_resolved {
        path
    } else {
        let (p, fragment) = match crate::text::rsplit_once_at(path.as_str(), '#') {
            Some((a, b)) => (a, b),
            None => {
                let e = String::new();
                (path, e)
            },
        };
        let prefix = match resolve_path(p.as_str(), &locs.keys, context) {
            Some(x) => x,
            None => String::new(),
        };
        let first = if fragment.as_str().is_empty() {
            if prefix.as_str().is_empty() {
                cat(cat(context, "#").as_str(), p.as_str())
            } else {
                prefix
            }
        } else {
            if prefix.as_str().is_empty() {
                cat("#", fragment.as_str())
            } else {
                cat(cat(prefix.as_str(), "#").as_str(), fragment.as_str())
            }
        };
        let keys = asts.keys();
        match resolve_scheme_path(first.as_str(), scheme.as_str(), &keys, context) {
            Some(x) => x,
            None => first,
        }
    };
    cat(cat(scheme.as_str(), ":").as_str(), uri_path.as_str())
}

/// What including works on.
pub struct Included {
    pub node: NodeV,
    pub asts: AstV,
    pub deps: Seq<DependencyV>,
}

/// `node` pointing at the slot behind `p`: through its first free
/// ellipsis where it has one, by itself where it has children and no such
/// ellipsis, and through a new section as its only child where it has none.
pub open spec fn pointed(node: NodeV, p: Pointer) -> NodeV {
    match node.children {
        Some(c) => match ellipsis_pointed(c, 0, p) {
            Some(c2) => NodeV { children: Some(c2), ..node },
            None => NodeV { pointer: Some(p), ..node },
        },
        None => NodeV {
            children: Some(seq![NodeV { pointer: Some(p), ..NodeV::empty(Rule::Section) }]),
            ..node
        },
    }
}

/// What one `src` or `ref` property does: its URI becomes a dependency and
/// gets a slot in the AST map, and for `src` the node is made to point at
/// that slot.
pub open spec fn include_one(
    st: Included,
    key: Seq<char>,
    value: Seq<char>,
    set: LangSettings,
    locs: Seq<Seq<char>>,
    context: Seq<char>,
) -> Included {
    let is_src = key == "src"@;
    let uri = link_uri(value, is_src, set, locs, st.asts.uris, context);
    let deps = deps_with(st.deps, DependencyV::URI(key, uri));
    let asts = st.asts.ensured(uri);
    if is_src {
        Included { node: pointed(st.node, Pointer(st.asts.slot_for(uri))), asts, deps }
    } else {
        Included { node: st.node, asts, deps }
    }
}

/// What the properties from `i` on do, in order.
pub open spec fn includes_from(
    st: Included,
    props: Seq<(Seq<char>, Seq<char>)>,
    i: int,
    set: LangSettings,
    locs: Seq<Seq<char>>,
    context: Seq<char>,
) -> Included
    decreases props.len() - i,
{
    if i < 0 || i >= props.len() {
        st
    } else if props[i].0 == "src"@ || props[i].0 == "ref"@ {
        includes_from(
            include_one(st, props[i].0, props[i].1, set, locs, context),
            props,
            i + 1,
            set,
            locs,
            context,
        )
    } else {
        includes_from(st, props, i + 1, set, locs, context)
    }
}

/// What the `src` and `ref` properties of a node do, in the order of the
/// properties.
pub open spec fn with_includes(
    st: Included,
    set: LangSettings,
    locs: Seq<Seq<char>>,
    context: Seq<char>,
) -> Included {
    includes_from(
        st,
        match st.node.props {
            Some(p) => p,
            None => Seq::empty(),
        },
        0,
        set,
        locs,
        context,
    )
}

/// Makes `node` point at the slot `slot`.
pub fn attach_pointer(node: &mut Node, p: Pointer)
    ensures
        final(node)@ == pointed(old(node)@, p),
{
    proof {
        lemma_children_view(*node);
    }
    match node.children.take() {
        Some(mut kids) => {
            let found = point_ellipsis(&mut kids, p);
            node.children = Some(kids);
            if !found {
                node.pointer = Some(p);
            }
        },
        None => {
            let mut section = Node::empty(Rule::Section);
            section.pointer = Some(p);
            proof {
                lemma_children_view(section);
            }
            let mut kids: Vec<Node> = Vec::new();
            kids.push(section);
            assert(nodes_view(kids@) =~= seq![section@]);
            node.children = Some(kids);
        },
    }
    proof {
        lemma_children_view(*node);
    }
}

/// Follows the `src` and `ref` properties of a node: each becomes a
/// dependency and gets a slot in the AST map, and for `src` the node is
/// made to point at that slot.
pub fn preprocess_includes(
    node: &mut Node,
    asts: &mut AstMap,
    locs: &LocationMap,
    context: &str,
    deps: &mut Vec<Dependency>,
    settings: &LangSettings,
)
    requires
        old(asts).wf(),
    ensures
        final(asts).wf(),
        old(asts)@.kept_in(final(asts)@),
        (Included {
            node: final(node)@,
            asts: final(asts)@,
            deps: deps_view(final(deps)@),
        }) == with_includes(
            Included { node: old(node)@, asts: old(asts)@, deps: deps_view(old(deps)@) },
            *settings,
            locs.keys.deep_view(),
            context@,
        ),
{
    proof {
        lemma_children_view(*node);
    }
    let props: Props = match &node.props {
        Some(p) => copy_props(p),
        None => {
            let v: Props = Vec::new();
            assert(v.deep_view() =~= Seq::<(Seq<char>, Seq<char>)>::empty());
            v
        },
    };
    let ghost start = Included { node: node@, asts: asts@, deps: deps_view(deps@) };
    let ghost goal = with_includes(start, *settings, locs.keys.deep_view(), context@);
    let mut i: usize = 0;
    while i < props.len()
        invariant
            i <= props.len(),
            asts.wf(),
            old(asts)@.kept_in(asts@),
            goal == includes_from(
                Included { node: node@, asts: asts@, deps: deps_view(deps@) },
                props.deep_view(),
                i as int,
                *settings,
                locs.keys.deep_view(),
                context@,
            ),
        decreases props.len() - i,
    {
        assert(props.deep_view()[i as int] == (props[i as int].0@, props[i as int].1@));
        let key = props[i].0.as_str();
        let is_src = str_eq(key, "src");
        let is_ref = str_eq(key, "ref");
        if is_src || is_ref {
            let uri = resolve_link(props[i].1.as_str(), is_src, settings, locs, asts, context);
            let kind: &'static str = if is_src {
                "src"
            } else {
                "ref"
            };
            insert_dependency(deps, Dependency::URI(kind, copy_str(uri.as_str())));
            let slot = asts.ensure(uri.as_str());
            if is_src {
                attach_pointer(node, Pointer(slot));
            }
        }
        i += 1;
    }
}

/// The URI under which a node with the id `id` is stored:
/// `parse:<context>#<id>`, whatever the context.
pub open spec fn id_uri(context: Seq<char>, id: Seq<char>) -> Seq<char> {
    "parse:"@ + context + "#"@ + id
}

/// `uris` with `uri` at its end unless it is there already.
pub open spec fn uris_with(uris: Seq<Seq<char>>, uri: Seq<char>) -> Seq<Seq<char>> {
    if uris.contains(uri) {
        uris
    } else {
        uris.push(uri)
    }
}

/// Adds `uri` to `uris` unless it is there already.
pub fn insert_uri(uris: &mut Vec<String>, uri: String)
    ensures
        final(uris).deep_view() == uris_with(old(uris).deep_view(), uri@),
{
    proof {
        crate::strmap::lemma_position(uris.deep_view(), uri@);
    }
    if crate::strmap::find_key(uris, uri.as_str()).is_none() {
        let ghost before = uris.deep_view();
        uris.push(uri);
        assert(uris.deep_view() =~= before.push(uri@));
    }
}

/// What moving an id leaves.
pub struct Moved {
    pub node: NodeV,
    pub asts: AstV,
    pub new_asts: Seq<Seq<char>>,
    pub error: Option<LibErrorV>,
}

/// What the `id` property of a node does. A node without a pointer moves
/// into the AST map under the URI of its id, and a copy without children
/// that points at it takes its place; that fails where another node has
/// moved there during the same walk. For a node with a pointer, the slot
/// that it points at gets the URI as one more name; that fails where the
/// slot is not there or the URI is taken. A node without `id` stays.
pub open spec fn with_id_moved(
    node: NodeV,
    asts: AstV,
    new_asts: Seq<Seq<char>>,
    context: Seq<char>,
) -> Moved {
    match node.find_prop("id"@) {
        None => Moved { node, asts, new_asts, error: None },
        Some(id) => {
            let uri = id_uri(context, id);
            match node.pointer {
                Some(p) => if p.0 >= asts.slots.len() {
                    Moved { node, asts, new_asts, error: Some(LibErrorV::DeadPointer(p.0)) }
                } else if asts.slot_of(uri) is Some {
                    Moved { node, asts, new_asts, error: Some(LibErrorV::DuplicateId(uri)) }
                } else {
                    Moved {
                        node,
                        asts: asts.aliased(uri, p.0),
                        new_asts: uris_with(new_asts, uri),
                        error: None,
                    }
                },
                None => if new_asts.contains(uri) {
                    Moved { node, asts, new_asts, error: Some(LibErrorV::DuplicateId(uri)) }
                } else {
                    Moved {
                        node: NodeV {
                            children: None,
                            pointer: Some(Pointer(asts.slot_for(uri))),
                            ..node
                        },
                        asts: asts.with_node(uri, node),
                        new_asts: uris_with(new_asts, uri),
                        error: None,
                    }
                },
            }
        },
    }
}

/// Moves a node that has an id into the AST map and leaves a pointer in
/// its place. Where that fails, nothing is changed.
pub fn preprocess_ids(
    node: &mut Node,
    asts: &mut AstMap,
    context: &str,
    new_asts: &mut Vec<String>,
) -> (r: Result<(), LibError>)
    requires
        old(asts).wf(),
    ensures
        final(asts).wf(),
        old(asts)@.kept_in(final(asts)@),
        ({
            let m = with_id_moved(old(node)@, old(asts)@, old(new_asts).deep_view(), context@);
            &&& final(node)@ == m.node
            &&& final(asts)@ == m.asts
            &&& final(new_asts).deep_view() == m.new_asts
            &&& match r {
                Ok(_) => m.error is None,
                Err(e) => m.error == Some(e@),
            }
        }),
{
    proof {
        lemma_children_view(*node);
    }
    let id = match node.find_prop("id") {
        Some(id) => id,
        None => {
            return Ok(());
        },
    };
    let uri = cat(cat(cat("parse:", context).as_str(), "#").as_str(), id.as_str());
    match node.pointer {
        Some(p) => {
            if p.0 >= asts.slots.len() {
                return Err(LibError::DeadPointer(p.0));
            }
            if !asts.alias(copy_str(uri.as_str()), p.0) {
                return Err(LibError::DuplicateId(uri));
            }
            insert_uri(new_asts, uri);
            Ok(())
        },
        None => {
            proof {
                crate::strmap::lemma_position(new_asts.deep_view(), uri@);
            }
            if crate::strmap::find_key(new_asts, uri.as_str()).is_some() {
                return Err(LibError::DuplicateId(uri));
            }
            let mut moved = node.shallow_copy();
            std::mem::swap(node, &mut moved);
            let slot = asts.insert(copy_str(uri.as_str()), moved);
            insert_uri(new_asts, uri);
            node.pointer = Some(Pointer(slot));
            proof {
                lemma_children_view(*node);
            }
            Ok(())
        },
    }
}

/// After an id has moved, the AST map holds the node as it was under the
/// URI of its id, and what is left in place is the same node without
/// children, with a pointer to a slot that is there and holds the node.
pub proof fn lemma_id_move(
    node: NodeV,
    asts: AstV,
    new_asts: Seq<Seq<char>>,
    context: Seq<char>,
    id: Seq<char>,
)
    requires
        asts.wf(),
        asts.slots.len() < usize::MAX,
        node.find_prop("id"@) == Some(id),
        node.pointer is None,
        !new_asts.contains(id_uri(context, id)),
    ensures
        ({
            let m = with_id_moved(node, asts, new_asts, context);
            let uri = id_uri(context, id);
            &&& m.error is None
            &&& m.asts.wf()
            &&& m.asts.node_at(uri) == Some(node)
            &&& m.node == (NodeV { children: None, pointer: m.node.pointer, ..node })
            &&& m.node.pointer is Some
            &&& m.node.pointer->Some_0.0 < m.asts.slots.len()
            &&& m.asts.slots[m.node.pointer->Some_0.0 as int] == Some(node)
            &&& m.new_asts.contains(uri)
        }),
{
    let uri = id_uri(context, id);
    crate::strmap::lemma_position(asts.uris, uri);
    let m = with_id_moved(node, asts, new_asts, context);
    match asts.slot_of(uri) {
        Some(s) => {
            let i = crate::strmap::position(asts.uris, uri)->Some_0;
            assert(asts.targets[i] == s);
            assert(s < asts.slots.len());
            assert(m.asts.wf());
            assert(m.asts.node_at(uri) == Some(node));
        },
        None => {
            let n = asts.uris.len() as int;
            assert(!asts.uris.contains(uri));
            assert forall|j: int| 0 <= j < n implies m.asts.uris[j] != uri by {
                assert(asts.uris[j] == m.asts.uris[j]);
            }
            crate::strmap::lemma_position_is(m.asts.uris, uri, n);
            assert(m.asts.uris.no_duplicates());
            assert forall|i: int| 0 <= i < m.asts.targets.len() implies m.asts.targets[i]
                < m.asts.slots.len() by {
                if i < n {
                    assert(m.asts.targets[i] == asts.targets[i]);
                }
            }
            assert(m.asts.wf());
            assert(m.asts.node_at(uri) == Some(node));
        },
    }
    if !new_asts.contains(uri) {
        assert(new_asts.push(uri)[new_asts.len() as int] == uri);
    }
}

/// The first `k` trees of two forests that agree on them are equally high.
proof fn lemma_height_prefix(a: Seq<NodeV>, b: Seq<NodeV>, k: nat)
    requires
        k <= a.len(),
        k <= b.len(),
        forall|j: int| 0 <= j < k ==> a[j] == b[j],
    ensures
        forest_height_upto(a, k) == forest_height_upto(b, k),
    decreases k,
{
    if k > 0 {
        lemma_height_prefix(a, b, (k - 1) as nat);
    }
}

/// A forest with one more tree is as high as the higher of the two.
proof fn lemma_height_push(s: Seq<NodeV>, x: NodeV)
    ensures
        forest_height(s.push(x)) == if forest_height(s) >= node_height(x) {
            forest_height(s)
        } else {
            node_height(x)
        },
{
    lemma_height_prefix(s.push(x), s, s.len());
}

/// In a folded list every element is either no higher than the list that
/// was folded, or a paragraph whose lines are no higher than that list;
/// after a line of text the last element is such a paragraph.
proof fn lemma_folded_heights(c: Seq<NodeV>)
    ensures
        forall|k: int|
            0 <= k < folded(c).len() ==> {
                let e = #[trigger] folded(c)[k];
                ||| node_height(e) <= forest_height(c)
                ||| e.rule == Rule::Paragraph && e.children is Some && forest_height(
                    e.children->Some_0,
                ) <= forest_height(c)
            },
        c.len() > 0 && is_text_line(c.last()) ==> {
            let e = folded(c).last();
            folded(c).len() > 0 && e.rule == Rule::Paragraph && e.children is Some && forest_height(
                e.children->Some_0,
            ) <= forest_height(c)
        },
    decreases c.len(),
{
    if c.len() > 0 {
        let init = c.drop_last();
        let last = c.last();
        let before = folded(init);
        lemma_folded_heights(init);
        assert(c =~= init.push(last));
        lemma_height_push(init, last);
        if !is_text_line(last) {
            assert forall|k: int| 0 <= k < folded(c).len() implies {
                let e = #[trigger] folded(c)[k];
                ||| node_height(e) <= forest_height(c)
                ||| e.rule == Rule::Paragraph && e.children is Some && forest_height(
                    e.children->Some_0,
                ) <= forest_height(c)
            } by {
                if k < before.len() {
                    assert(folded(c)[k] == before[k]);
                }
            }
        } else if c.len() >= 2 && is_text_line(c[c.len() - 2]) && before.len() > 0 {
            assert(init.last() == c[c.len() - 2]);
            let par = before.last();
            let grown = paragraph_with(par, last);
            lemma_height_push(par.children->Some_0, last);
            assert forall|k: int| 0 <= k < folded(c).len() implies {
                let e = #[trigger] folded(c)[k];
                ||| node_height(e) <= forest_height(c)
                ||| e.rule == Rule::Paragraph && e.children is Some && forest_height(
                    e.children->Some_0,
                ) <= forest_height(c)
            } by {
                if k < before.len() - 1 {
                    assert(folded(c)[k] == before[k]);
                } else {
                    assert(folded(c)[k] == grown);
                }
            }
        } else {
            let par = paragraph_of(last);
            assert(par.children->Some_0 =~= Seq::<NodeV>::empty().push(last));
            lemma_height_push(Seq::<NodeV>::empty(), last);
            assert forall|k: int| 0 <= k < folded(c).len() implies {
                let e = #[trigger] folded(c)[k];
                ||| node_height(e) <= forest_height(c)
                ||| e.rule == Rule::Paragraph && e.children is Some && forest_height(
                    e.children->Some_0,
                ) <= forest_height(c)
            } by {
                if k < before.len() {
                    assert(folded(c)[k] == before[k]);
                } else {
                    assert(folded(c)[k] == par);
                }
            }
        }
    }
}

/// Whether every child of `n` weighs less than `bound`.
pub open spec fn children_below(n: NodeV, bound: nat) -> bool {
    n.children matches Some(c) ==> forall|j: int|
        0 <= j < c.len() ==> node_weight(#[trigger] c[j]) < bound
}

/// Folding keeps the children of a section lighter than the section.
proof fn lemma_paragraphs_below(node: NodeV, set: LangSettings)
    requires
        node.rule == Rule::Section,
    ensures
        children_below(with_paragraphs(node, set), node_weight(node)),
{
    match node.children {
        Some(c) => {
            lemma_folded_heights(c);
            assert forall|j: int| 0 <= j < c.len() implies node_weight(#[trigger] c[j])
                < node_weight(node) by {
                lemma_child_weight(node, j);
            }
        },
        None => {},
    }
}

/// Pointing an ellipsis changes neither the kinds nor the heights of the nodes.
proof fn lemma_ellipsis_shape(nodes: Seq<NodeV>, i: int, p: Pointer)
    requires
        0 <= i,
    ensures
        ellipsis_pointed(nodes, i, p) matches Some(c2) ==> same_shape(nodes, c2),
    decreases nodes, nodes.len() - i,
{
    if i < nodes.len() {
        let n = nodes[i];
        if n.pointer is Some || n.find_prop("src"@) is Some {
            lemma_ellipsis_shape(nodes, i + 1, p);
        } else if n.rule == Rule::Ellipsis {
        } else {
            match n.children {
                Some(c) => {
                    lemma_ellipsis_shape(c, 0, p);
                    match ellipsis_pointed(c, 0, p) {
                        Some(c2) => {
                            lemma_same_shape_height(c, c2, c.len());
                        },
                        None => {
                            lemma_ellipsis_shape(nodes, i + 1, p);
                        },
                    }
                },
                None => {
                    lemma_ellipsis_shape(nodes, i + 1, p);
                },
            }
        }
    }
}

/// Pointing a node keeps its kind and keeps its children below a bound
/// that leaves room for an empty section.
proof fn lemma_pointed_below(node: NodeV, p: Pointer, bound: nat)
    requires
        children_below(node, bound),
        bound >= 5,
    ensures
        children_below(pointed(node, p), bound),
        pointed(node, p).rule == node.rule,
        pointed(node, p).props == node.props,
{
    match node.children {
        Some(c) => {
            lemma_ellipsis_shape(c, 0, p);
            match ellipsis_pointed(c, 0, p) {
                Some(c2) => {
                    assert forall|j: int| 0 <= j < c2.len() implies node_weight(
                        #[trigger] c2[j],
                    ) < bound by {
                        assert(node_height(c[j]) == node_height(c2[j]));
                        assert(node_weight(c[j]) < bound);
                    }
                },
                None => {},
            }
        },
        None => {
            let s = NodeV { pointer: Some(p), ..NodeV::empty(Rule::Section) };
            assert(node_height(s) == 1);
        },
    }
}

/// Including keeps the kind of a node and keeps its children below a
/// bound that leaves room for an empty section.
proof fn lemma_includes_below(
    st: Included,
    props: Seq<(Seq<char>, Seq<char>)>,
    i: int,
    set: LangSettings,
    locs: Seq<Seq<char>>,
    context: Seq<char>,
    bound: nat,
)
    requires
        children_below(st.node, bound),
        bound >= 5,
    ensures
        children_below(includes_from(st, props, i, set, locs, context).node, bound),
        includes_from(st, props, i, set, locs, context).node.rule == st.node.rule,
    decreases props.len() - i,
{
    if 0 <= i < props.len() {
        if props[i].0 == "src"@ || props[i].0 == "ref"@ {
            let next = include_one(st, props[i].0, props[i].1, set, locs, context);
            if props[i].0 == "src"@ {
                let uri = link_uri(props[i].1, true, set, locs, st.asts.uris, context);
                lemma_pointed_below(st.node, Pointer(st.asts.slot_for(uri)), bound);
            }
            lemma_includes_below(next, props, i + 1, set, locs, context, bound);
        } else {
            lemma_includes_below(st, props, i + 1, set, locs, context, bound);
        }
    }
}

/// What the walk carries from node to node.
pub struct PreState {
    pub ctx: CtxV,
    pub asts: AstV,
    pub deps: Seq<DependencyV>,
    pub new_asts: Seq<Seq<char>>,
}

/// What the walk is given and does not change.
pub struct PreEnv {
    pub locs: Seq<Seq<char>>,
    pub context: Seq<char>,
    pub rules: Seq<RuleV>,
}

/// A node on the way down: what it has become, the state, the rules that
/// were begun on it with their cursors, and the error that ended the walk,
/// if one did.
pub struct Head {
    pub node: NodeV,
    pub st: PreState,
    pub sel: Seq<int>,
    pub cursors: Seq<int>,
    pub error: Option<LibErrorV>,
}

/// A node, or a list of nodes, after the walk.
pub struct Walked {
    pub nodes: Seq<NodeV>,
    pub st: PreState,
    pub error: Option<LibErrorV>,
}

/// What happens to a node before its children are walked: the context
/// is told its path, and the `PREPROCESS` rules for the path are begun;
/// then a root or block gets
/// its implied header and follows its `src` and `ref` properties, and a
/// section has its lines folded into paragraphs under the settings of the
/// rules that were begun.
pub open spec fn pre_head(node: NodeV, st: PreState, env: PreEnv, base: Seq<char>) -> Head {
    let sel = selected(env.rules, node.path(base));
    let ph = open_from(
        env.rules,
        sel,
        0,
        phase_of(
            Vm {
                ctx: CtxV { parent: Some(node.path(base)), ..st.ctx },
                node,
                deps: st.deps,
                out: Seq::empty(),
            },
        ),
    );
    let set = batch_settings(env.rules, sel);
    match ph.failed {
        Some(text) => Head {
            node,
            st,
            sel,
            cursors: ph.cursors,
            error: Some(LibErrorV::InvalidRule(text)),
        },
        None => {
            let n1 = ph.vm.node;
            let st1 = PreState { ctx: ph.vm.ctx, deps: ph.vm.deps, ..st };
            match n1.rule {
                Rule::Root | Rule::Block => {
                    let inc = with_includes(
                        Included { node: with_implied_header(n1), asts: st.asts, deps: ph.vm.deps },
                        set,
                        env.locs,
                        env.context,
                    );
                    Head {
                        node: inc.node,
                        st: PreState { asts: inc.asts, deps: inc.deps, ..st1 },
                        sel,
                        cursors: ph.cursors,
                        error: None,
                    }
                },
                Rule::Section => Head {
                    node: with_paragraphs(n1, set),
                    st: st1,
                    sel,
                    cursors: ph.cursors,
                    error: None,
                },
                _ => Head { node: n1, st: st1, sel, cursors: ph.cursors, error: None },
            }
        },
    }
}

/// What happens to a node after its children are walked: a root or block
/// with an id moves into the AST map, and the rules that were begun are
/// ended, last first.
pub open spec fn pre_tail(
    node: NodeV,
    st: PreState,
    env: PreEnv,
    sel: Seq<int>,
    cursors: Seq<int>,
) -> Walked {
    let moved = match node.rule {
        Rule::Root | Rule::Block => with_id_moved(node, st.asts, st.new_asts, env.context),
        _ => Moved { node, asts: st.asts, new_asts: st.new_asts, error: None },
    };
    match moved.error {
        Some(e) => Walked { nodes: seq![node], st, error: Some(e) },
        None => {
            let ph = close_from(
                env.rules,
                sel,
                cursors,
                sel.len() as int,
                phase_of(
                    Vm { ctx: st.ctx, node: moved.node, deps: st.deps, out: Seq::empty() },
                ),
            );
            Walked {
                nodes: seq![ph.vm.node],
                st: PreState {
                    ctx: ph.vm.ctx,
                    asts: moved.asts,
                    deps: ph.vm.deps,
                    new_asts: moved.new_asts,
                },
                error: match ph.failed {
                    Some(text) => Some(LibErrorV::InvalidRule(text)),
                    None => None,
                },
            }
        },
    }
}

/// Before the children are walked, every child is lighter than the node was.
pub proof fn lemma_head_children(node: NodeV, st: PreState, env: PreEnv, base: Seq<char>)
    ensures
        pre_head(node, st, env, base).error is None ==> children_below(
            pre_head(node, st, env, base).node,
            node_weight(node),
        ),
{
    let sel = selected(env.rules, node.path(base));
    let start = phase_of(
        Vm {
            ctx: CtxV { parent: Some(node.path(base)), ..st.ctx },
            node,
            deps: st.deps,
            out: Seq::empty(),
        },
    );
    let ph = open_from(env.rules, sel, 0, start);
    let set = batch_settings(env.rules, sel);
    lemma_open_keeps_tree(env.rules, sel, 0, start);
    if ph.failed is None {
        let n1 = ph.vm.node;
        assert(n1.children == node.children);
        assert(node_height(n1) == node_height(node));
        assert(children_below(n1, node_weight(node))) by {
            if n1.children is Some {
                assert forall|j: int| 0 <= j < n1.children->Some_0.len() implies node_weight(
                    #[trigger] n1.children->Some_0[j],
                ) < node_weight(node) by {
                    lemma_child_weight(node, j);
                }
            }
        }
        match n1.rule {
            Rule::Root | Rule::Block => {
                let h = with_implied_header(n1);
                assert(h.children == n1.children);
                let inc = Included { node: h, asts: st.asts, deps: ph.vm.deps };
                assert(node_height(node) >= 1);
                lemma_includes_below(
                    inc,
                    match h.props {
                        Some(p) => p,
                        None => Seq::empty(),
                    },
                    0,
                    set,
                    env.locs,
                    env.context,
                    node_weight(node),
                );
            },
            Rule::Section => {
                lemma_paragraphs_below(n1, set);
            },
            _ => {},
        }
    }
}

/// The walk of one node: what comes before the children, the children
/// under the path that the node has by then, what comes after them.
pub open spec fn pre_one(node: NodeV, st: PreState, env: PreEnv, base: Seq<char>) -> Walked
    decreases node_weight(node), 0nat, 0nat,
{
    let head = pre_head(node, st, env, base);
    if head.error is Some {
        Walked { nodes: seq![node], st, error: head.error }
    } else {
        match head.node.children {
            Some(c) => {
                proof {
                    lemma_head_children(node, st, env, base);
                    lemma_forest_weight_below(c, seq![node], 0);
                    lemma_forest_weight_upto(seq![node], 1);
                }
                let kids = pre_from(c, 0, Seq::empty(), head.st, env, head.node.path(base));
                if kids.error is Some {
                    Walked { nodes: seq![node], st, error: kids.error }
                } else {
                    pre_tail(
                        NodeV { children: Some(kids.nodes), ..head.node },
                        kids.st,
                        env,
                        head.sel,
                        head.cursors,
                    )
                }
            },
            None => pre_tail(head.node, head.st, env, head.sel, head.cursors),
        }
    }
}

/// The walk of the nodes `nodes[i..]` in order, each on the state that
/// the one before it left; `done` holds what became of `nodes[..i]`.
pub open spec fn pre_from(
    nodes: Seq<NodeV>,
    i: int,
    done: Seq<NodeV>,
    st: PreState,
    env: PreEnv,
    base: Seq<char>,
) -> Walked
    decreases forest_weight(nodes), 1nat, nodes.len() - i,
{
    if i < 0 || i >= nodes.len() {
        Walked { nodes: done, st, error: None }
    } else {
        proof {
            lemma_forest_weight_upto(nodes, nodes.len());
        }
        let one = pre_one(nodes[i], st, env, base);
        if one.error is Some {
            Walked { nodes: done, st, error: one.error }
        } else {
            pre_from(nodes, i + 1, done.push(one.nodes[0]), one.st, env, base)
        }
    }
}

/// The state of the walk as the executable code holds it.
pub open spec fn pre_state(
    ctx: &Context,
    asts: &AstMap,
    deps: &Vec<Dependency>,
    new_asts: &Vec<String>,
) -> PreState {
    PreState {
        ctx: ctx@,
        asts: asts@,
        deps: deps_view(deps@),
        new_asts: new_asts.deep_view(),
    }
}

/// What the walk is given, as the executable code holds it.
pub open spec fn pre_env(locs: &LocationMap, context: &str, lang: &Lang) -> PreEnv {
    PreEnv { locs: locs.keys.deep_view(), context: context@, rules: lang@.preprocess_rules }
}

/// Walks one node and what is below it.
pub fn preprocess_node(
    node: &mut Node,
    ctx: &mut Context,
    asts: &mut AstMap,
    locs: &LocationMap,
    context: &str,
    deps: &mut Vec<Dependency>,
    new_asts: &mut Vec<String>,
    lang: &Lang,
    base_path: &str,
) -> (r: Result<(), LibError>)
    requires
        old(ctx).wf(),
        old(asts).wf(),
    ensures
        final(ctx).wf(),
        final(asts).wf(),
        old(asts)@.kept_in(final(asts)@),
        ({
            let w = pre_one(
                old(node)@,
                pre_state(old(ctx), old(asts), old(deps), old(new_asts)),
                pre_env(locs, context, lang),
                base_path@,
            );
            match r {
                Ok(_) => {
                    &&& w.error is None
                    &&& final(node)@ == w.nodes[0]
                    &&& pre_state(final(ctx), final(asts), final(deps), final(new_asts)) == w.st
                },
                Err(e) => w.error == Some(e@),
            }
        }),
    decreases node_weight(old(node)@), 0nat, 0nat,
{
    let ghost env = pre_env(locs, context, lang);
    let ghost st0 = pre_state(ctx, asts, deps, new_asts);
    let ghost node0 = node@;
    let ghost head = pre_head(node0, st0, env, base_path@);
    let path = node.build_path(base_path);
    ctx.set_parent(path.as_str());
    let rules = &lang.preprocess_rules;
    let sel = crate::compiler::lang::select(rules, path.as_str());
    let set = merge_settings(rules, &sel);
    let mut sink = String::new();
    let cursors = match lang.open_rules(rules, &sel, ctx, deps, node, &mut sink) {
        Ok(c) => c,
        Err(e) => {
            return Err(e);
        },
    };
    proof {
        lemma_children_view(*node);
    }
    match node.rule {
        Rule::Root | Rule::Block => {
            preprocess_headers(node);
            preprocess_includes(node, asts, locs, context, deps, &set);
        },
        Rule::Section => {
            preprocess_paragraphs(node, &set);
        },
        _ => {},
    }
    assert(node@ == head.node);
    assert(pre_state(ctx, asts, deps, new_asts) == head.st);
    proof {
        lemma_children_view(*node);
    }
    let ghost kids0 = node.children;
    match node.children.take() {
        Some(mut kids) => {
            proof {
                lemma_children_view(*node);
                assert(kids0 == Some(kids));
                assert(head.node.children == Some(nodes_view(kids@)));
                lemma_head_children(node0, st0, env, base_path@);
                lemma_forest_weight_below(nodes_view(kids@), seq![node0], 0);
                lemma_forest_weight_upto(seq![node0], 1);
            }
            let path2 = node.build_path(base_path);
            assert(path2@ == head.node.path(base_path@));
            let r = preprocess_nodes(
                &mut kids,
                ctx,
                asts,
                locs,
                context,
                deps,
                new_asts,
                lang,
                path2.as_str(),
            );
            node.children = Some(kids);
            proof {
                lemma_children_view(*node);
            }
            match r {
                Ok(_) => {},
                Err(e) => {
                    return Err(e);
                },
            }
        },
        None => {},
    }
    match node.rule {
        Rule::Root | Rule::Block => {
            match preprocess_ids(node, asts, context, new_asts) {
                Ok(_) => {},
                Err(e) => {
                    return Err(e);
                },
            }
        },
        _ => {},
    }
    let mut sink2 = String::new();
    lang.close_rules(rules, &sel, &cursors, ctx, deps, node, &mut sink2)
}

/// Walks a list of nodes in order.
pub fn preprocess_nodes(
    nodes: &mut Vec<Node>,
    ctx: &mut Context,
    asts: &mut AstMap,
    locs: &LocationMap,
    context: &str,
    deps: &mut Vec<Dependency>,
    new_asts: &mut Vec<String>,
    lang: &Lang,
    base_path: &str,
) -> (r: Result<(), LibError>)
    requires
        old(ctx).wf(),
        old(asts).wf(),
    ensures
        final(ctx).wf(),
        final(asts).wf(),
        old(asts)@.kept_in(final(asts)@),
        ({
            let w = pre_from(
                nodes_view(old(nodes)@),
                0,
                Seq::empty(),
                pre_state(old(ctx), old(asts), old(deps), old(new_asts)),
                pre_env(locs, context, lang),
                base_path@,
            );
            match r {
                Ok(_) => {
                    &&& w.error is None
                    &&& nodes_view(final(nodes)@) == w.nodes
                    &&& pre_state(final(ctx), final(asts), final(deps), final(new_asts)) == w.st
                },
                Err(e) => w.error == Some(e@),
            }
        }),
    decreases forest_weight(nodes_view(old(nodes)@)), 1nat, 0nat,
{
    let ghost env = pre_env(locs, context, lang);
    let ghost orig = nodes_view(nodes@);
    let ghost goal = pre_from(
        orig,
        0,
        Seq::empty(),
        pre_state(ctx, asts, deps, new_asts),
        env,
        base_path@,
    );
    let ghost mut done: Seq<NodeV> = Seq::empty();
    let mut i: usize = 0;
    assert(nodes_view(nodes@) =~= done + orig.skip(0));
    while i < nodes.len()
        invariant
            i <= nodes.len(),
            nodes.len() == orig.len(),
            orig == nodes_view(old(nodes)@),
            env == pre_env(locs, context, lang),
            ctx.wf(),
            asts.wf(),
            old(asts)@.kept_in(asts@),
            done.len() == i,
            nodes_view(nodes@) == done + orig.skip(i as int),
            goal == pre_from(
                orig,
                0,
                Seq::empty(),
                pre_state(old(ctx), old(asts), old(deps), old(new_asts)),
                env,
                base_path@,
            ),
            goal == pre_from(
                orig,
                i as int,
                done,
                pre_state(ctx, asts, deps, new_asts),
                env,
                base_path@,
            ),
        decreases nodes.len() - i,
    {
        let ghost before = nodes_view(nodes@);
        proof {
            lemma_forest_weight_upto(orig, orig.len());
            assert(before[i as int] == orig[i as int]);
            assert(nodes[i as int]@ == orig[i as int]);
        }
        let r = preprocess_node(
            &mut nodes[i],
            ctx,
            asts,
            locs,
            context,
            deps,
            new_asts,
            lang,
            base_path,
        );
        match r {
            Ok(_) => {},
            Err(e) => {
                return Err(e);
            },
        }
        proof {
            let one = nodes[i as int]@;
            assert(nodes_view(nodes@) =~= done.push(one) + orig.skip(i + 1)) by {
                assert forall|j: int| 0 <= j < nodes.len() implies nodes_view(nodes@)[j] == (
                done.push(one) + orig.skip(i + 1))[j] by {
                    if j < i {
                        assert(nodes_view(nodes@)[j] == before[j]);
                    } else if j > i {
                        assert(nodes_view(nodes@)[j] == before[j]);
                    }
                }
            }
            done = done.push(one);
        }
        i += 1;
    }
    assert(orig.skip(i as int) =~= Seq::<NodeV>::empty());
    assert(done + Seq::<NodeV>::empty() =~= done);
    Ok(())
}

/// Preprocesses a tree in place: applies the `PREPROCESS` rules, adds
/// implied headers, folds paragraphs, follows `src` and `ref` links and
/// moves nodes with an id into the AST map. Returns the dependencies that
/// were found and the URIs that were given to moved nodes. Whether the
/// work succeeds or fails, the AST map loses no slot and no node.
pub fn preprocess(
    node: &mut Node,
    asts: &mut AstMap,
    locs: &LocationMap,
    context: &str,
    lang: &Lang,
) -> (r: Result<(Vec<Dependency>, Vec<String>), LibError>)
    requires
        old(asts).wf(),
    ensures
        final(asts).wf(),
        old(asts)@.kept_in(final(asts)@),
        ({
            let w = pre_one(
                old(node)@,
                PreState {
                    ctx: CtxV::empty(),
                    asts: old(asts)@,
                    deps: Seq::empty(),
                    new_asts: Seq::empty(),
                },
                pre_env(locs, context, lang),
                Seq::empty(),
            );
            match r {
                Ok((deps, new_asts)) => {
                    &&& w.error is None
                    &&& final(node)@ == w.nodes[0]
                    &&& final(asts)@ == w.st.asts
                    &&& deps_view(deps@) == w.st.deps
                    &&& new_asts.deep_view() == w.st.new_asts
                },
                Err(e) => w.error == Some(e@),
            }
        }),
{
    let mut deps: Vec<Dependency> = Vec::new();
    let mut new_asts: Vec<String> = Vec::new();
    let mut ctx = Context::new();
    proof {
        reveal_strlit("");
        assert(""@ =~= Seq::<char>::empty());
        assert(deps_view(deps@) =~= Seq::<DependencyV>::empty());
        assert(new_asts.deep_view() =~= Seq::<Seq<char>>::empty());
    }
    match preprocess_node(node, &mut ctx, asts, locs, context, &mut deps, &mut new_asts, lang, "") {
        Ok(_) => Ok((deps, new_asts)),
        Err(e) => Err(e),
    }
}

} // verus!
