//! The document tree.
use crate::text::{cat, copy_str, join, join_all, str_eq};
use crate::types::Pointer;
use vstd::prelude::*;

verus! {

/// The closed set of node kinds.
#[derive(Debug, Clone, Copy, PartialEq, Eq, Structural)]
pub enum Rule {
    Root,
    Block,
    Section,
    Paragraph,
    Line,
    Ellipsis,
}

/// Ordered `(key, value)` pairs.
pub type Props = Vec<(String, String)>;

/// A node of the document tree.
#[derive(Debug, PartialEq, Eq)]
pub struct Node {
    pub rule: Rule,
    pub props: Option<Props>,
    pub value: Option<String>,
    pub marker: Option<String>,
    pub headers: Option<Vec<String>>,
    pub pointer: Option<Pointer>,
    pub children: Option<Vec<Node>>,
    pub errors: Option<Vec<String>>,
}

/// Model of a [`Node`]: the same tree over sequences of characters.
pub struct NodeV {
    pub rule: Rule,
    pub props: Option<Seq<(Seq<char>, Seq<char>)>>,
    pub value: Option<Seq<char>>,
    pub marker: Option<Seq<char>>,
    pub headers: Option<Seq<Seq<char>>>,
    pub pointer: Option<Pointer>,
    pub children: Option<Seq<NodeV>>,
    pub errors: Option<Seq<Seq<char>>>,
}

/// The model of a node.
pub open spec fn node_view(n: Node) -> NodeV
    decreases n,
{
    NodeV {
        rule: n.rule,
        props: n.props.deep_view(),
        value: n.value.deep_view(),
        marker: n.marker.deep_view(),
        headers: n.headers.deep_view(),
        pointer: n.pointer,
        children: match n.children {
            Some(c) => Some(
                Seq::new(
                    c@.len(),
                    |i: int|
                        if 0 <= i < c@.len() {
                            node_view(c@[i])
                        } else {
                            arbitrary()
                        },
                ),
            ),
            None => None,
        },
        errors: n.errors.deep_view(),
    }
}

/// The models of a list of nodes.
pub open spec fn nodes_view(s: Seq<Node>) -> Seq<NodeV> {
    Seq::new(s.len(), |i: int| node_view(s[i]))
}

/// The children of a node's model are the models of its children.
pub proof fn lemma_children_view(n: Node)
    ensures
        n@.children == match n.children {
            Some(c) => Some(nodes_view(c@)),
            None => None::<Seq<NodeV>>,
        },
        n@.rule == n.rule,
        n@.props == n.props.deep_view(),
        n@.value == n.value.deep_view(),
        n@.marker == n.marker.deep_view(),
        n@.headers == n.headers.deep_view(),
        n@.pointer == n.pointer,
        n@.errors == n.errors.deep_view(),
{
    match n.children {
        Some(c) => {
            assert(n@.children->Some_0 =~= nodes_view(c@));
        },
        None => {},
    }
}

impl View for Node {
    type V = NodeV;

    open spec fn view(&self) -> NodeV {
        node_view(*self)
    }
}

/// A copy of a list of texts.
pub fn copy_strings(v: &Vec<String>) -> (r: Vec<String>)
    ensures
        r.deep_view() == v.deep_view(),
{
    let mut r: Vec<String> = Vec::new();
    let mut i: usize = 0;
    while i < v.len()
        invariant
            i <= v.len(),
            r.deep_view() == v.deep_view().take(i as int),
        decreases v.len() - i,
    {
        let ghost before = r.deep_view();
        r.push(copy_str(v[i].as_str()));
        assert(r.deep_view() =~= before.push(v[i as int]@));
        assert(v.deep_view().take(i + 1) =~= v.deep_view().take(i as int).push(v[i as int]@));
        i += 1;
    }
    assert(v.deep_view().take(v.len() as int) =~= v.deep_view());
    r
}

/// A copy of a list of properties.
pub fn copy_props(v: &Props) -> (r: Props)
    ensures
        r.deep_view() == v.deep_view(),
{
    let mut r: Props = Vec::new();
    let mut i: usize = 0;
    while i < v.len()
        invariant
            i <= v.len(),
            r.deep_view() == v.deep_view().take(i as int),
        decreases v.len() - i,
    {
        let ghost before = r.deep_view();
        r.push((copy_str(v[i].0.as_str()), copy_str(v[i].1.as_str())));
        assert(r.deep_view() =~= before.push((v[i as int].0@, v[i as int].1@)));
        assert(v.deep_view().take(i + 1) =~= v.deep_view().take(i as int).push(
            (v[i as int].0@, v[i as int].1@),
        ));
        i += 1;
    }
    assert(v.deep_view().take(v.len() as int) =~= v.deep_view());
    r
}

fn copy_opt_strings(s: &Option<Vec<String>>) -> (r: Option<Vec<String>>)
    ensures
        r.deep_view() == s.deep_view(),
{
    match s {
        Some(x) => Some(copy_strings(x)),
        None => None,
    }
}

fn copy_opt_props(s: &Option<Props>) -> (r: Option<Props>)
    ensures
        r.deep_view() == s.deep_view(),
{
    match s {
        Some(x) => Some(copy_props(x)),
        None => None,
    }
}

impl Node {
    /// A node of the given kind with nothing else set.
    pub fn empty(rule: Rule) -> (r: Node)
        ensures
            r@ == NodeV::empty(rule),
    {
        Node {
            rule,
            props: None,
            value: None,
            marker: None,
            headers: None,
            pointer: None,
            children: None,
            errors: None,
        }
    }

    /// A line of text.
    pub fn new_line(value: &str) -> (r: Node)
        ensures
            r@ == NodeV::line(value@),
    {
        let mut r = Node::empty(Rule::Line);
        r.value = Some(copy_str(value));
        proof {
            lemma_children_view(r);
        }
        r
    }

    /// A paragraph over `values`: their join by one space, and one line each below it.
    pub fn paragraph(values: &[&str]) -> (r: Node)
        ensures
            r@ == NodeV::paragraph(values.deep_view()),
    {
        let mut lines: Vec<Node> = Vec::new();
        let mut texts: Vec<String> = Vec::new();
        let mut i: usize = 0;
        while i < values.len()
            invariant
                i <= values.len(),
                texts.deep_view() == values.deep_view().take(i as int),
                nodes_view(lines@) == values.deep_view().take(i as int).map_values(
                    |v: Seq<char>| NodeV::line(v),
                ),
            decreases values.len() - i,
        {
            let ghost texts0 = texts.deep_view();
            let ghost lines0 = nodes_view(lines@);
            texts.push(copy_str(values[i]));
            lines.push(Node::new_line(values[i]));
            proof {
                let next = values.deep_view().take(i + 1);
                assert(next =~= values.deep_view().take(i as int).push(values[i as int]@));
                assert(texts.deep_view() =~= texts0.push(values[i as int]@));
                assert(nodes_view(lines@) =~= lines0.push(NodeV::line(values[i as int]@)));
                assert(next.map_values(|v: Seq<char>| NodeV::line(v)) =~= lines0.push(
                    NodeV::line(values[i as int]@),
                ));
            }
            i += 1;
        }
        assert(values.deep_view().take(values.len() as int) =~= values.deep_view());
        let mut r = Node::empty(Rule::Paragraph);
        r.value = Some(join_all(&texts, " "));
        r.children = Some(lines);
        proof {
            lemma_children_view(r);
        }
        r
    }

    /// A placeholder for included content.
    pub fn ellipsis() -> (r: Node)
        ensures
            r@ == NodeV::empty(Rule::Ellipsis),
    {
        Node::empty(Rule::Ellipsis)
    }

    /// Adds `(key, value)` after the other properties.
    pub fn add_prop(&mut self, key: &str, value: String)
        ensures
            final(self)@ == old(self)@.with_prop(key@, value@),
    {
        proof {
            lemma_children_view(*self);
        }
        let entry = (copy_str(key), value);
        let ghost before = self.props.deep_view();
        match self.props.take() {
            Some(mut props) => {
                props.push(entry);
                assert(props.deep_view() =~= before->Some_0.push((key@, value@)));
                self.props = Some(props);
            },
            None => {
                let mut props: Props = Vec::new();
                props.push(entry);
                assert(props.deep_view() =~= seq![(key@, value@)]);
                self.props = Some(props);
            },
        }
        proof {
            lemma_children_view(*self);
        }
    }

    /// Removes the first property named `key`, if there is one.
    pub fn remove_prop(&mut self, key: &str)
        ensures
            final(self)@ == old(self)@.without_prop(key@),
    {
        proof {
            lemma_children_view(*self);
        }
        let ghost before = self.props.deep_view();
        match self.props.take() {
            Some(mut props) => {
                match prop_position(&props, key) {
                    Some(i) => {
                        props.remove(i);
                        assert(props.deep_view() =~= before->Some_0.remove(i as int));
                    },
                    None => {},
                }
                self.props = Some(props);
            },
            None => {},
        }
        proof {
            lemma_children_view(*self);
        }
    }

    /// The values of the children that have one, in order.
    pub fn child_values(&self) -> (r: Option<Vec<String>>)
        ensures
            r.deep_view() == match self@.children {
                Some(c) => Some(values_of(c)),
                None => None,
            },
    {
        proof {
            lemma_children_view(*self);
        }
        match &self.children {
            Some(c) => {
                let mut out: Vec<String> = Vec::new();
                let mut i: usize = 0;
                while i < c.len()
                    invariant
                        i <= c.len(),
                        out.deep_view() == values_of(nodes_view(c@).take(i as int)),
                    decreases c.len() - i,
                {
                    let ghost before = out.deep_view();
                    proof {
                        lemma_children_view(c[i as int]);
                        let next = nodes_view(c@).take(i + 1);
                        assert(next.drop_last() =~= nodes_view(c@).take(i as int));
                        assert(next.last() == c[i as int]@);
                    }
                    match &c[i].value {
                        Some(v) => {
                            out.push(copy_str(v.as_str()));
                            assert(out.deep_view() =~= before.push(v@));
                        },
                        None => {},
                    }
                    i += 1;
                }
                assert(nodes_view(c@).take(c.len() as int) =~= nodes_view(c@));
                Some(out)
            },
            None => None,
        }
    }

    /// The value of the first property named `key`.
    pub fn find_prop(&self, key: &str) -> (r: Option<String>)
        ensures
            r.deep_view() == self@.find_prop(key@),
    {
        proof {
            lemma_children_view(*self);
        }
        match &self.props {
            Some(props) => match prop_position(props, key) {
                Some(i) => Some(copy_str(props[i].1.as_str())),
                None => None,
            },
            None => None,
        }
    }

    /// The headers joined by single spaces; empty without headers.
    pub fn header_text(&self) -> (r: String)
        ensures
            r@ == self@.header_text(),
    {
        proof {
            lemma_children_view(*self);
        }
        match &self.headers {
            Some(h) => join_all(h, " "),
            None => String::new(),
        }
    }

    /// The path of this node below the path `prefix`.
    pub fn build_path(&self, prefix: &str) -> (r: String)
        ensures
            r@ == self@.path(prefix@),
    {
        proof {
            lemma_children_view(*self);
        }
        let headers = self.header_text();
        let segment = match self.rule {
            Rule::Root | Rule::Block => cat(cat("[", headers.as_str()).as_str(), "]"),
            Rule::Line => copy_str("LINE"),
            Rule::Section => if !headers.as_str().is_empty() {
                cat(cat("[SEC ", headers.as_str()).as_str(), "]")
            } else {
                copy_str("[SEC]")
            },
            Rule::Paragraph => copy_str("[PAR]"),
            Rule::Ellipsis => copy_str("?"),
        };
        if prefix.is_empty() {
            segment
        } else {
            cat(cat(prefix, " ").as_str(), segment.as_str())
        }
    }

    /// A copy of this node without its children.
    pub fn shallow_copy(&self) -> (r: Node)
        ensures
            r@ == (NodeV { children: None, ..self@ }),
    {
        Node {
            rule: self.rule,
            props: copy_opt_props(&self.props),
            value: crate::text::copy_opt_str(&self.value),
            marker: crate::text::copy_opt_str(&self.marker),
            headers: copy_opt_strings(&self.headers),
            pointer: self.pointer,
            children: None,
            errors: copy_opt_strings(&self.errors),
        }
    }

    /// A copy of this node and of everything below it.
    pub fn duplicate(&self) -> (r: Node)
        ensures
            r@ == self@,
        decreases *self,
    {
        let mut r = self.shallow_copy();
        match &self.children {
            Some(c) => {
                let mut out: Vec<Node> = Vec::new();
                let mut i: usize = 0;
                while i < c.len()
                    invariant
                        i <= c.len(),
                        self.children == Some(*c),
                        nodes_view(out@) == nodes_view(c@).take(i as int),
                    decreases c.len() - i,
                {
                    let ghost before = nodes_view(out@);
                    proof {
                        assert(self.children->Some_0 == *c);
                        assert(decreases_to!(*self => self.children->Some_0));
                        assert(decreases_to!(*c => c@[i as int]));
                    }
                    let copy = c[i].duplicate();
                    out.push(copy);
                    assert(nodes_view(out@) =~= before.push(c[i as int]@));
                    assert(nodes_view(c@).take(i + 1) =~= nodes_view(c@).take(i as int).push(
                        c[i as int]@,
                    ));
                    i += 1;
                }
                assert(nodes_view(c@).take(c.len() as int) =~= nodes_view(c@));
                r.children = Some(out);
                proof {
                    lemma_children_view(r);
                    lemma_children_view(*self);
                }
            },
            None => {
                proof {
                    lemma_children_view(r);
                    lemma_children_view(*self);
                }
            },
        }
        r
    }
}

/// Builds a node step by step; each step takes the builder and hands it back.
#[derive(Debug, PartialEq, Eq)]
pub struct NodeBuilder {
    pub node: Node,
}

impl View for NodeBuilder {
    type V = NodeV;

    open spec fn view(&self) -> NodeV {
        self.node@
    }
}

impl NodeBuilder {
    /// Starts a node of the given kind.
    pub fn new(rule: Rule) -> (r: Self)
        ensures
            r@ == NodeV::empty(rule),
    {
        NodeBuilder { node: Node::empty(rule) }
    }

    /// The node built so far.
    pub fn done(self) -> (r: Node)
        ensures
            r@ == self@,
    {
        self.node
    }

    /// The node built so far.
    pub fn build(self) -> (r: Result<Node, String>)
        ensures
            r is Ok,
            r->Ok_0@ == self@,
    {
        Ok(self.node)
    }

    /// Starts a root.
    pub fn root() -> (r: Self)
        ensures
            r@ == NodeV::empty(Rule::Root),
    {
        Self::new(Rule::Root)
    }

    /// Starts a block with the given marker.
    pub fn block(marker: &'static str) -> (r: Self)
        ensures
            r@ == (NodeV { marker: Some(marker@), ..NodeV::empty(Rule::Block) }),
    {
        Self::new(Rule::Block).marker(Some(copy_str(marker)))
    }

    pub fn rule(self, rule: Rule) -> (r: Self)
        ensures
            r@ == (NodeV { rule, ..self@ }),
    {
        let mut b = self;
        proof {
            lemma_children_view(b.node);
        }
        b.node.rule = rule;
        proof {
            lemma_children_view(b.node);
        }
        b
    }

    pub fn props(self, props: Props) -> (r: Self)
        ensures
            r@ == (NodeV { props: Some(props.deep_view()), ..self@ }),
    {
        let mut b = self;
        proof {
            lemma_children_view(b.node);
        }
        b.node.props = Some(props);
        proof {
            lemma_children_view(b.node);
        }
        b
    }

    /// Adds one property after the others.
    pub fn add_prop(self, prop: (String, String)) -> (r: Self)
        ensures
            r@ == self@.with_prop(prop.0@, prop.1@),
    {
        let mut b = self;
        b.node.add_prop(prop.0.as_str(), prop.1);
        b
    }

    pub fn value(self, value: String) -> (r: Self)
        ensures
            r@ == (NodeV { value: Some(value@), ..self@ }),
    {
        let mut b = self;
        proof {
            lemma_children_view(b.node);
        }
        b.node.value = Some(value);
        proof {
            lemma_children_view(b.node);
        }
        b
    }

    pub fn marker(self, marker: Option<String>) -> (r: Self)
        ensures
            r@ == (NodeV { marker: marker.deep_view(), ..self@ }),
    {
        let mut b = self;
        proof {
            lemma_children_view(b.node);
        }
        b.node.marker = marker;
        proof {
            lemma_children_view(b.node);
        }
        b
    }

    pub fn headers(self, headers: Option<Vec<String>>) -> (r: Self)
        ensures
            r@ == (NodeV { headers: headers.deep_view(), ..self@ }),
    {
        let mut b = self;
        proof {
            lemma_children_view(b.node);
        }
        b.node.headers = headers;
        proof {
            lemma_children_view(b.node);
        }
        b
    }

    pub fn pointer(self, pointer: Option<Pointer>) -> (r: Self)
        ensures
            r@ == (NodeV { pointer, ..self@ }),
    {
        let mut b = self;
        proof {
            lemma_children_view(b.node);
        }
        b.node.pointer = pointer;
        proof {
            lemma_children_view(b.node);
        }
        b
    }

    pub fn children(self, children: Vec<Node>) -> (r: Self)
        ensures
            r@ == (NodeV { children: Some(nodes_view(children@)), ..self@ }),
    {
        let mut b = self;
        proof {
            lemma_children_view(b.node);
        }
        b.node.children = Some(children);
        proof {
            lemma_children_view(b.node);
        }
        b
    }

    /// Adds one child after the others.
    pub fn add_child(self, child: Node) -> (r: Self)
        ensures
            r@ == self@.with_child(child@),
    {
        let mut b = self;
        proof {
            lemma_children_view(b.node);
        }
        let ghost before = b.node.children;
        match b.node.children.take() {
            Some(mut c) => {
                c.push(child);
                assert(nodes_view(c@) =~= nodes_view(before->Some_0@).push(child@));
                b.node.children = Some(c);
            },
            None => {
                let mut c: Vec<Node> = Vec::new();
                c.push(child);
                assert(nodes_view(c@) =~= seq![child@]);
                b.node.children = Some(c);
            },
        }
        proof {
            lemma_children_view(b.node);
        }
        b
    }

    /// Adds one error note after the others.
    pub fn add_error(self, error: &str) -> (r: Self)
        ensures
            r@ == self@.with_error(error@),
    {
        let mut b = self;
        proof {
            lemma_children_view(b.node);
        }
        let ghost before = b.node.errors.deep_view();
        match b.node.errors.take() {
            Some(mut e) => {
                e.push(copy_str(error));
                assert(e.deep_view() =~= before->Some_0.push(error@));
                b.node.errors = Some(e);
            },
            None => {
                let mut e: Vec<String> = Vec::new();
                e.push(copy_str(error));
                assert(e.deep_view() =~= seq![error@]);
                b.node.errors = Some(e);
            },
        }
        proof {
            lemma_children_view(b.node);
        }
        b
    }

    /// Adds a section over `children` as the next child.
    pub fn add_section(self, children: Vec<Node>) -> (r: Self)
        ensures
            r@ == self@.with_child(NodeV::section(nodes_view(children@))),
    {
        let node = NodeBuilder::new(Rule::Section).add_children(children).done();
        self.add_child(node)
    }

    /// Sets the children.
    pub fn add_children(self, children: Vec<Node>) -> (r: Self)
        ensures
            r@ == (NodeV { children: Some(nodes_view(children@)), ..self@ }),
    {
        self.children(children)
    }

    /// Sets the properties that were read, keeps the builder as it is where
    /// there were none, and notes `invalid props` where reading them failed.
    pub fn try_props<T>(self, props: Result<Option<Props>, T>) -> (r: Self)
        ensures
            r@ == match props {
                Ok(Some(p)) => NodeV { props: Some(p.deep_view()), ..self@ },
                Ok(None) => self@,
                Err(_) => self@.with_error("invalid props"@),
            },
    {
        match props {
            Ok(Some(p)) => self.props(p),
            Ok(None) => self,
            Err(_) => self.add_error("invalid props"),
        }
    }
}

impl Default for Rule {
    fn default() -> (r: Self)
        ensures
            r == Rule::Root,
    {
        Rule::Root
    }
}

impl Default for Node {
    fn default() -> (r: Self)
        ensures
            r@ == NodeV::empty(Rule::Root),
    {
        Node::empty(Rule::Root)
    }
}

impl Clone for Node {
    fn clone(&self) -> (r: Self)
        ensures
            r@ == self@,
    {
        self.duplicate()
    }
}

/// The number of nodes in the tree below and including `n`.
pub open spec fn node_size(n: NodeV) -> nat
    decreases n, 0nat,
{
    match n.children {
        Some(c) => 1 + forest_size_upto(c, c.len()),
        None => 1,
    }
}

/// The number of nodes in the trees of the first `k` elements of `s`.
pub open spec fn forest_size_upto(s: Seq<NodeV>, k: nat) -> nat
    decreases s, k,
{
    if k == 0 || k > s.len() {
        0
    } else {
        forest_size_upto(s, (k - 1) as nat) + node_size(s[k - 1])
    }
}

/// The number of nodes in the trees of `s`.
pub open spec fn forest_size(s: Seq<NodeV>) -> nat {
    forest_size_upto(s, s.len())
}

/// Each tree of a forest is no larger than the part of the forest up to it.
pub proof fn lemma_forest_size_upto(s: Seq<NodeV>, k: nat, i: int)
    requires
        0 <= i < k <= s.len(),
    ensures
        node_size(s[i]) <= forest_size_upto(s, k),
    decreases k,
{
    if i < k - 1 {
        lemma_forest_size_upto(s, (k - 1) as nat, i);
    }
}

/// A tree of a forest is no larger than the forest, and what is below a
/// node is smaller than the node.
pub proof fn lemma_forest_size(s: Seq<NodeV>, i: int)
    requires
        0 <= i < s.len(),
    ensures
        node_size(s[i]) <= forest_size(s),
        s[i].children is Some ==> forest_size(s[i].children->Some_0) < forest_size(s),
{
    lemma_forest_size_upto(s, s.len(), i);
}

/// The number of levels of the tree below and including `n`.
pub open spec fn node_height(n: NodeV) -> nat
    decreases n, 0nat,
{
    match n.children {
        Some(c) => 1 + forest_height_upto(c, c.len()),
        None => 1,
    }
}

/// The height of the highest of the first `k` trees of `s`.
pub open spec fn forest_height_upto(s: Seq<NodeV>, k: nat) -> nat
    decreases s, k,
{
    if k == 0 || k > s.len() {
        0
    } else if forest_height_upto(s, (k - 1) as nat) >= node_height(s[k - 1]) {
        forest_height_upto(s, (k - 1) as nat)
    } else {
        node_height(s[k - 1])
    }
}

/// The height of the highest tree of `s`.
pub open spec fn forest_height(s: Seq<NodeV>) -> nat {
    forest_height_upto(s, s.len())
}

/// A measure that falls from every node to each of its children, and that
/// leaves room for one paragraph below a section and for one section below
/// a root or block without children.
pub open spec fn node_weight(n: NodeV) -> nat {
    3 * node_height(n) + match n.rule {
        Rule::Root => 2nat,
        Rule::Block => 2nat,
        Rule::Section => 1nat,
        _ => 0nat,
    }
}

/// The weight of the heaviest of the first `k` trees of `s`.
pub open spec fn forest_weight_upto(s: Seq<NodeV>, k: nat) -> nat
    decreases k,
{
    if k == 0 || k > s.len() {
        0
    } else if forest_weight_upto(s, (k - 1) as nat) >= node_weight(s[k - 1]) {
        forest_weight_upto(s, (k - 1) as nat)
    } else {
        node_weight(s[k - 1])
    }
}

/// The weight of the heaviest tree of `s`.
pub open spec fn forest_weight(s: Seq<NodeV>) -> nat {
    forest_weight_upto(s, s.len())
}

/// The first `k` trees are no higher than their highest, which is as high
/// as one of them or zero.
pub proof fn lemma_forest_height_upto(s: Seq<NodeV>, k: nat)
    requires
        k <= s.len(),
    ensures
        forall|i: int| 0 <= i < k ==> node_height(#[trigger] s[i]) <= forest_height_upto(s, k),
        k > 0 ==> exists|i: int| 0 <= i < k && node_height(s[i]) == forest_height_upto(s, k),
        k == 0 ==> forest_height_upto(s, k) == 0,
    decreases k,
{
    if k > 0 {
        lemma_forest_height_upto(s, (k - 1) as nat);
        if k > 1 {
            let i = choose|i: int|
                0 <= i < k - 1 && node_height(s[i]) == forest_height_upto(s, (k - 1) as nat);
            assert(0 <= i < k);
        }
        assert(node_height(s[k - 1]) <= forest_height_upto(s, k));
    }
}

/// The first `k` trees are no heavier than their heaviest, which is as
/// heavy as one of them or zero.
pub proof fn lemma_forest_weight_upto(s: Seq<NodeV>, k: nat)
    requires
        k <= s.len(),
    ensures
        forall|i: int| 0 <= i < k ==> node_weight(#[trigger] s[i]) <= forest_weight_upto(s, k),
        k > 0 ==> exists|i: int| 0 <= i < k && node_weight(s[i]) == forest_weight_upto(s, k),
        k == 0 ==> forest_weight_upto(s, k) == 0,
    decreases k,
{
    if k > 0 {
        lemma_forest_weight_upto(s, (k - 1) as nat);
        if k > 1 {
            let i = choose|i: int|
                0 <= i < k - 1 && node_weight(s[i]) == forest_weight_upto(s, (k - 1) as nat);
            assert(0 <= i < k);
        }
        assert(node_weight(s[k - 1]) <= forest_weight_upto(s, k));
    }
}

/// Children that are all lighter than one tree of a forest make a lighter forest.
pub proof fn lemma_forest_weight_below(kids: Seq<NodeV>, s: Seq<NodeV>, i: int)
    requires
        0 <= i < s.len(),
        forall|j: int| 0 <= j < kids.len() ==> node_weight(#[trigger] kids[j]) < node_weight(s[i]),
    ensures
        forest_weight(kids) < forest_weight(s),
{
    lemma_forest_weight_upto(s, s.len());
    lemma_forest_weight_upto(kids, kids.len());
    assert(node_weight(s[i]) >= 3) by {
        assert(node_height(s[i]) >= 1);
    }
}

/// Every child is lighter than its parent.
pub proof fn lemma_child_weight(n: NodeV, j: int)
    requires
        n.children is Some,
        0 <= j < n.children->Some_0.len(),
    ensures
        node_weight(n.children->Some_0[j]) < node_weight(n),
        node_height(n.children->Some_0[j]) < node_height(n),
{
    lemma_forest_height_upto(n.children->Some_0, n.children->Some_0.len());
}

/// Forests with trees of the same kinds and heights, one by one.
pub open spec fn same_shape(a: Seq<NodeV>, b: Seq<NodeV>) -> bool {
    &&& a.len() == b.len()
    &&& forall|j: int|
        0 <= j < a.len() ==> node_height(#[trigger] a[j]) == node_height(b[j]) && a[j].rule
            == b[j].rule
}

/// Forests of the same shape are equally high.
pub proof fn lemma_same_shape_height(a: Seq<NodeV>, b: Seq<NodeV>, k: nat)
    requires
        same_shape(a, b),
        k <= a.len(),
    ensures
        forest_height_upto(a, k) == forest_height_upto(b, k),
    decreases k,
{
    if k > 0 {
        lemma_same_shape_height(a, b, (k - 1) as nat);
        assert(node_height(a[k - 1]) == node_height(b[k - 1]));
    }
}

/// The values of the nodes that have one, in order.
pub open spec fn values_of(nodes: Seq<NodeV>) -> Seq<Seq<char>>
    decreases nodes.len(),
{
    if nodes.len() == 0 {
        Seq::empty()
    } else {
        match nodes.last().value {
            Some(v) => values_of(nodes.drop_last()).push(v),
            None => values_of(nodes.drop_last()),
        }
    }
}

/// Index of the first property named `key` at or after `from`;
/// `props.len()` when there is none.
pub open spec fn prop_pos_from(props: Seq<(Seq<char>, Seq<char>)>, key: Seq<char>, from: int) -> int
    decreases props.len() - from,
{
    if from >= props.len() {
        props.len() as int
    } else if props[from].0 == key {
        from
    } else {
        prop_pos_from(props, key, from + 1)
    }
}

/// The value of the first property named `key`.
pub open spec fn prop_value(props: Option<Seq<(Seq<char>, Seq<char>)>>, key: Seq<char>) -> Option<
    Seq<char>,
> {
    match props {
        Some(p) => if prop_pos_from(p, key, 0) < p.len() {
            Some(p[prop_pos_from(p, key, 0)].1)
        } else {
            None
        },
        None => None,
    }
}

/// Index of the first property named `key`.
pub fn prop_position(props: &Props, key: &str) -> (r: Option<usize>)
    ensures
        match r {
            Some(i) => i == prop_pos_from(props.deep_view(), key@, 0) && i < props.len(),
            None => prop_pos_from(props.deep_view(), key@, 0) == props.len(),
        },
{
    let mut i: usize = 0;
    while i < props.len()
        invariant
            i <= props.len(),
            prop_pos_from(props.deep_view(), key@, i as int) == prop_pos_from(
                props.deep_view(),
                key@,
                0,
            ),
        decreases props.len() - i,
    {
        if str_eq(props[i].0.as_str(), key) {
            return Some(i);
        }
        i += 1;
    }
    None
}

impl NodeV {
    /// A line of text.
    pub open spec fn line(value: Seq<char>) -> NodeV {
        NodeV { value: Some(value), ..NodeV::empty(Rule::Line) }
    }

    /// A paragraph over `values`: their join by one space, and one line each below it.
    pub open spec fn paragraph(values: Seq<Seq<char>>) -> NodeV {
        NodeV {
            value: Some(join(values, " "@)),
            children: Some(values.map_values(|v: Seq<char>| NodeV::line(v))),
            ..NodeV::empty(Rule::Paragraph)
        }
    }

    /// This node with `(key, value)` after its other properties.
    pub open spec fn with_prop(self, key: Seq<char>, value: Seq<char>) -> NodeV {
        NodeV {
            props: Some(
                match self.props {
                    Some(p) => p.push((key, value)),
                    None => seq![(key, value)],
                },
            ),
            ..self
        }
    }

    /// This node with `child` after its other children.
    pub open spec fn with_child(self, child: NodeV) -> NodeV {
        NodeV {
            children: Some(
                match self.children {
                    Some(c) => c.push(child),
                    None => seq![child],
                },
            ),
            ..self
        }
    }

    /// This node with `error` after its other error notes.
    pub open spec fn with_error(self, error: Seq<char>) -> NodeV {
        NodeV {
            errors: Some(
                match self.errors {
                    Some(e) => e.push(error),
                    None => seq![error],
                },
            ),
            ..self
        }
    }

    /// This node without its first property named `key`.
    pub open spec fn without_prop(self, key: Seq<char>) -> NodeV {
        match self.props {
            Some(p) => if prop_pos_from(p, key, 0) < p.len() {
                NodeV { props: Some(p.remove(prop_pos_from(p, key, 0))), ..self }
            } else {
                self
            },
            None => self,
        }
    }

    /// The value of the first property named `key`.
    pub open spec fn find_prop(self, key: Seq<char>) -> Option<Seq<char>> {
        prop_value(self.props, key)
    }

    /// The headers joined by single spaces; empty without headers.
    pub open spec fn header_text(self) -> Seq<char> {
        match self.headers {
            Some(h) => join(h, " "@),
            None => Seq::empty(),
        }
    }

    /// What this node adds to the path of its parent.
    pub open spec fn path_segment(self) -> Seq<char> {
        match self.rule {
            Rule::Root => "["@ + self.header_text() + "]"@,
            Rule::Block => "["@ + self.header_text() + "]"@,
            Rule::Line => "LINE"@,
            Rule::Section => if self.header_text().len() > 0 {
                "[SEC "@ + self.header_text() + "]"@
            } else {
                "[SEC]"@
            },
            Rule::Paragraph => "[PAR]"@,
            Rule::Ellipsis => "?"@,
        }
    }

    /// The path of this node below the path `prefix`: the two joined by one
    /// space, or the segment alone below the empty path.
    pub open spec fn path(self, prefix: Seq<char>) -> Seq<char> {
        if prefix.len() == 0 {
            self.path_segment()
        } else {
            prefix + " "@ + self.path_segment()
        }
    }

    /// A section over `children`.
    pub open spec fn section(children: Seq<NodeV>) -> NodeV {
        NodeV { children: Some(children), ..NodeV::empty(Rule::Section) }
    }

    /// A node of the given kind with nothing else set.
    pub open spec fn empty(rule: Rule) -> NodeV {
        NodeV {
            rule,
            props: None,
            value: None,
            marker: None,
            headers: None,
            pointer: None,
            children: None,
            errors: None,
        }
    }
}

} // verus!
