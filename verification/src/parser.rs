//! Reads the markup.
//!
//! A document is read line by line. A line that begins with a marker and
//! a space belongs to a block; the markers are `>`, `*`, `#` and three
//! spaces. Neighbouring lines with the same marker make one block, whose
//! content is the lines without the marker and is read like a document
//! of its own. The first line of a block may begin with an opener,
//! `[!HEADER ...](key="value" ...)`, of which the part in round brackets
//! may be missing; what follows the opener on its line is the first line
//! of the content. A line `...` is an ellipsis, and any other line is a
//! line of text.
use crate::ast::{lemma_children_view, nodes_view, Node, NodeV, Props, Rule};
use crate::compiler::rule_parser::{is_blank, lemma_word_end, word_end};
use crate::text::{chars_of, find_char_from, find_from, string_of_range};
use crate::types::LibError;
use vstd::prelude::*;

verus! {

/// The marker that a line begins with.
pub open spec fn marker_of(line: Seq<char>) -> Option<Seq<char>> {
    if line.len() >= 4 && line[0] == ' ' && line[1] == ' ' && line[2] == ' ' && line[3] == ' ' {
        Some(seq![' ', ' ', ' '])
    } else if line.len() >= 1 && (line[0] == '>' || line[0] == '*' || line[0] == '#') && (line.len()
        == 1 || line[1] == ' ') {
        Some(seq![line[0]])
    } else {
        None
    }
}

/// A line of a block without its marker and the space behind it.
pub open spec fn unmarked(line: Seq<char>, marker: Seq<char>) -> Seq<char> {
    if line.len() <= marker.len() {
        Seq::empty()
    } else {
        line.skip(marker.len() as int + 1)
    }
}

/// The end of the block that begins at line `i`: the first line from `k`
/// on that has another marker or none.
pub open spec fn block_end(lines: Seq<Seq<char>>, k: int, marker: Seq<char>) -> int
    decreases lines.len() - k,
{
    if k < 0 || k >= lines.len() {
        lines.len() as int
    } else if marker_of(lines[k]) == Some(marker) {
        block_end(lines, k + 1, marker)
    } else {
        k
    }
}

/// The words of `s` from `i` on, behind `acc`; blanks separate them.
pub open spec fn words_from(s: Seq<char>, i: int, acc: Seq<Seq<char>>) -> Seq<Seq<char>>
    decreases s.len() - i,
{
    if i < 0 || i >= s.len() {
        acc
    } else if is_blank(s[i]) {
        words_from(s, i + 1, acc)
    } else {
        let e = word_end(s, i);
        if e <= i || e > s.len() {
            acc
        } else {
            words_from(s, e, acc.push(s.subrange(i, e)))
        }
    }
}

/// The properties written in `s` from `i` on, behind `acc`: each as
/// `key="value"`, with blanks between them. `None` where `s` is not
/// written so.
pub open spec fn props_from(s: Seq<char>, i: int, acc: Seq<(Seq<char>, Seq<char>)>) -> Option<
    Seq<(Seq<char>, Seq<char>)>,
>
    decreases s.len() - i,
{
    if i < 0 || i >= s.len() {
        Some(acc)
    } else if is_blank(s[i]) {
        props_from(s, i + 1, acc)
    } else {
        let eq = find_from(s, '=', i);
        let q = find_from(s, '"', eq + 2);
        if eq <= i || eq + 1 >= s.len() || s[eq + 1] != '"' || q >= s.len() || q < eq + 2 {
            None
        } else {
            props_from(s, q + 1, acc.push((s.subrange(i, eq), s.subrange(eq + 2, q))))
        }
    }
}

/// What the opener of a block says.
pub struct Opener {
    pub headers: Seq<Seq<char>>,
    /// The properties; `None` without round brackets, and an error where
    /// what stands in them is not written as properties.
    pub props: Option<Option<Seq<(Seq<char>, Seq<char>)>>>,
    /// What follows the opener on its line.
    pub rest: Seq<char>,
}

/// The place behind the blank that may follow an opener that ends at `at`.
pub open spec fn rest_at(line: Seq<char>, at: int) -> int {
    if at < line.len() && line[at] == ' ' {
        at + 1
    } else {
        at
    }
}

/// The opener that a line begins with.
pub open spec fn opener_of(line: Seq<char>) -> Option<Opener> {
    let close = find_from(line, ']', 2);
    let pclose = find_from(line, ')', close + 2);
    if line.len() < 2 || line[0] != '[' || line[1] != '!' || close >= line.len() {
        None
    } else if close + 1 < line.len() && line[close + 1] == '(' {
        if pclose >= line.len() {
            None
        } else {
            Some(
                Opener {
                    headers: words_from(line.subrange(2, close), 0, Seq::empty()),
                    props: Some(props_from(line.subrange(close + 2, pclose), 0, Seq::empty())),
                    rest: line.skip(rest_at(line, pclose + 1)),
                },
            )
        }
    } else {
        Some(
            Opener {
                headers: words_from(line.subrange(2, close), 0, Seq::empty()),
                props: None,
                rest: line.skip(rest_at(line, close + 1)),
            },
        )
    }
}

/// The lines `lines[i..j]` of a block without their markers.
pub open spec fn content_of(lines: Seq<Seq<char>>, i: int, j: int, marker: Seq<char>) -> Seq<
    Seq<char>,
> {
    Seq::new((j - i) as nat, |k: int| unmarked(lines[i + k], marker))
}

/// The lines that are read as the content of a block: those behind its
/// opener, where it has one.
pub open spec fn body_of(content: Seq<Seq<char>>) -> Seq<Seq<char>> {
    if content.len() == 0 {
        content
    } else {
        match opener_of(content[0]) {
            Some(o) => if o.rest.len() > 0 {
                seq![o.rest] + content.skip(1)
            } else {
                content.skip(1)
            },
            None => content,
        }
    }
}

/// The block with the marker `marker` and the content `content`, whose
/// body has been read as `children`.
pub open spec fn block_of(marker: Seq<char>, content: Seq<Seq<char>>, children: Seq<NodeV>) -> NodeV {
    let opener = if content.len() > 0 {
        opener_of(content[0])
    } else {
        None
    };
    let base = NodeV { marker: Some(marker), ..NodeV::empty(Rule::Block) };
    let with_opener = match opener {
        Some(o) => {
            let h = NodeV { headers: Some(o.headers), ..base };
            match o.props {
                None => h,
                Some(Some(p)) => NodeV { props: Some(p), ..h },
                Some(None) => h.with_error("invalid props"@),
            }
        },
        None => base,
    };
    if body_of(content).len() == 0 {
        with_opener
    } else {
        with_opener.with_child(NodeV::section(children))
    }
}

/// The nodes that the lines `lines[i..]` are read as, behind `acc`.
/// `depth` bounds how deep blocks are read inside blocks; it is never
/// reached while it is above the length of the longest line.
pub open spec fn nodes_from(lines: Seq<Seq<char>>, i: int, acc: Seq<NodeV>, depth: nat) -> Seq<NodeV>
    decreases depth, lines.len() - i,
{
    if i < 0 || i >= lines.len() {
        acc
    } else {
        let marker = marker_of(lines[i]);
        if marker is None || depth == 0 {
            nodes_from(
                lines,
                i + 1,
                acc.push(
                    if lines[i] == seq!['.', '.', '.'] {
                        NodeV::empty(Rule::Ellipsis)
                    } else {
                        NodeV::line(lines[i])
                    },
                ),
                depth,
            )
        } else {
            let m = marker->Some_0;
            let j = block_end(lines, i + 1, m);
            if j <= i || j > lines.len() {
                acc
            } else {
                let content = content_of(lines, i, j, m);
                let children = nodes_from(body_of(content), 0, Seq::empty(), (depth - 1) as nat);
                nodes_from(lines, j, acc.push(block_of(m, content, children)), depth)
            }
        }
    }
}

/// The length of the longest of the first `k` lines.
pub open spec fn longest(lines: Seq<Seq<char>>, k: int) -> nat
    decreases k,
{
    if k <= 0 || k > lines.len() {
        0
    } else if longest(lines, k - 1) >= lines[k - 1].len() {
        longest(lines, k - 1)
    } else {
        lines[k - 1].len()
    }
}

/// The lines of a document: its text split at newlines, without the
/// empty line behind a last newline.
pub open spec fn lines_of(input: Seq<char>) -> Seq<Seq<char>> {
    let all = crate::text::split_char(input, '\n');
    if all.len() > 0 && all.last().len() == 0 {
        all.drop_last()
    } else {
        all
    }
}

/// A depth that reading the lines does not reach.
pub open spec fn depth_for(lines: Seq<Seq<char>>) -> nat {
    if longest(lines, lines.len() as int) < usize::MAX {
        longest(lines, lines.len() as int) + 1
    } else {
        longest(lines, lines.len() as int)
    }
}

/// The tree that a document is read as: a root over one section over the
/// nodes of its lines.
pub open spec fn parsed(input: Seq<char>) -> NodeV {
    let lines = lines_of(input);
    NodeV::empty(Rule::Root).with_child(
        NodeV::section(nodes_from(lines, 0, Seq::empty(), depth_for(lines))),
    )
}

/// The views of a list of lines.
pub open spec fn lines_view(s: Seq<Vec<char>>) -> Seq<Seq<char>> {
    s.map_values(|l: Vec<char>| l@)
}

fn marker_in(line: &Vec<char>) -> (r: Option<Vec<char>>)
    ensures
        match r {
            Some(m) => marker_of(line@) == Some(m@),
            None => marker_of(line@) is None,
        },
{
    if line.len() >= 4 && line[0] == ' ' && line[1] == ' ' && line[2] == ' ' && line[3] == ' ' {
        let mut m: Vec<char> = Vec::new();
        m.push(' ');
        m.push(' ');
        m.push(' ');
        assert(m@ =~= seq![' ', ' ', ' ']);
        Some(m)
    } else if line.len() >= 1 && (line[0] == '>' || line[0] == '*' || line[0] == '#') && (line.len()
        == 1 || line[1] == ' ') {
        let mut m: Vec<char> = Vec::new();
        m.push(line[0]);
        assert(m@ =~= seq![line@[0]]);
        Some(m)
    } else {
        None
    }
}

fn same_marker(line: &Vec<char>, marker: &Vec<char>) -> (r: bool)
    ensures
        r == (marker_of(line@) == Some(marker@)),
{
    match marker_in(line) {
        Some(m) => crate::text::chars_eq(&m, marker),
        None => false,
    }
}

fn copy_range(v: &Vec<char>, from: usize, to: usize) -> (r: Vec<char>)
    requires
        from <= to <= v.len(),
    ensures
        r@ == v@.subrange(from as int, to as int),
{
    let mut r: Vec<char> = Vec::new();
    let mut i: usize = from;
    while i < to
        invariant
            from <= i <= to <= v.len(),
            r@ == v@.subrange(from as int, i as int),
        decreases to - i,
    {
        r.push(v[i]);
        assert(v@.subrange(from as int, i + 1) =~= v@.subrange(from as int, i as int).push(
            v@[i as int],
        ));
        i += 1;
    }
    r
}

fn words(s: &Vec<char>) -> (r: Vec<String>)
    ensures
        r.deep_view() == words_from(s@, 0, Seq::empty()),
{
    let mut out: Vec<String> = Vec::new();
    let mut i: usize = 0;
    assert(out.deep_view() =~= Seq::<Seq<char>>::empty());
    while i < s.len()
        invariant
            i <= s.len(),
            words_from(s@, i as int, out.deep_view()) == words_from(s@, 0, Seq::empty()),
        decreases s.len() - i,
    {
        if s[i] == ' ' || s[i] == '\t' || s[i] == '\r' {
            i += 1;
        } else {
            let mut e: usize = i;
            proof {
                lemma_word_end(s@, i as int);
            }
            while e < s.len() && !(s[e] == ' ' || s[e] == '\t' || s[e] == '\r')
                invariant
                    i <= e <= s.len(),
                    word_end(s@, e as int) == word_end(s@, i as int),
                decreases s.len() - e,
            {
                e += 1;
            }
            let ghost before = out.deep_view();
            out.push(string_of_range(s, i, e));
            assert(out.deep_view() =~= before.push(s@.subrange(i as int, e as int)));
            i = e;
        }
    }
    out
}

fn props_in(s: &Vec<char>) -> (r: Option<Props>)
    ensures
        r.deep_view() == props_from(s@, 0, Seq::empty()),
{
    let mut out: Props = Vec::new();
    let mut i: usize = 0;
    assert(out.deep_view() =~= Seq::<(Seq<char>, Seq<char>)>::empty());
    while i < s.len()
        invariant
            i <= s.len(),
            props_from(s@, i as int, out.deep_view()) == props_from(s@, 0, Seq::empty()),
        decreases s.len() - i,
    {
        if s[i] == ' ' || s[i] == '\t' || s[i] == '\r' {
            i += 1;
        } else {
            let eq = find_char_from(s, '=', i);
            if eq <= i || eq >= s.len() - 1 || s[eq + 1] != '"' {
                return None;
            }
            let q = find_char_from(s, '"', eq + 2);
            if q >= s.len() {
                return None;
            }
            let ghost before = out.deep_view();
            let key = string_of_range(s, i, eq);
            let value = string_of_range(s, eq + 2, q);
            out.push((key, value));
            assert(out.deep_view() =~= before.push(
                (s@.subrange(i as int, eq as int), s@.subrange(eq + 2, q as int)),
            ));
            i = q + 1;
        }
    }
    Some(out)
}

/// What the opener of a block says, as the executable code holds it.
struct Opened {
    headers: Vec<String>,
    props: Option<Option<Props>>,
    rest: Vec<char>,
}

impl Opened {
    spec fn view(&self) -> Opener {
        Opener {
            headers: self.headers.deep_view(),
            props: match self.props {
                None => None,
                Some(p) => Some(p.deep_view()),
            },
            rest: self.rest@,
        }
    }
}

fn rest_from(line: &Vec<char>, at: usize) -> (r: Vec<char>)
    requires
        at <= line.len(),
    ensures
        r@ == line@.skip(rest_at(line@, at as int)),
{
    let from = if at < line.len() && line[at] == ' ' {
        at + 1
    } else {
        at
    };
    let r = copy_range(line, from, line.len());
    assert(line@.subrange(from as int, line.len() as int) =~= line@.skip(from as int));
    r
}

fn open(line: &Vec<char>) -> (r: Option<Opened>)
    ensures
        match r {
            Some(o) => opener_of(line@) == Some(o.view()),
            None => opener_of(line@) is None,
        },
{
    if line.len() < 2 || line[0] != '[' || line[1] != '!' {
        return None;
    }
    let close = find_char_from(line, ']', 2);
    if close >= line.len() {
        return None;
    }
    let head = copy_range(line, 2, close);
    if close + 1 < line.len() && line[close + 1] == '(' {
        let pclose = find_char_from(line, ')', close + 2);
        if pclose >= line.len() {
            return None;
        }
        let inner = copy_range(line, close + 2, pclose);
        Some(
            Opened {
                headers: words(&head),
                props: Some(props_in(&inner)),
                rest: rest_from(line, pclose + 1),
            },
        )
    } else {
        Some(Opened { headers: words(&head), props: None, rest: rest_from(line, close + 1) })
    }
}

/// Reads the lines `lines[from..]` as nodes.
fn parse_lines(lines: &Vec<Vec<char>>, depth: usize) -> (r: Vec<Node>)
    ensures
        nodes_view(r@) == nodes_from(lines_view(lines@), 0, Seq::empty(), depth as nat),
    decreases depth, 0nat,
{
    let ghost all = lines_view(lines@);
    let mut out: Vec<Node> = Vec::new();
    let mut i: usize = 0;
    assert(nodes_view(out@) =~= Seq::<NodeV>::empty());
    while i < lines.len()
        invariant
            i <= lines.len(),
            all == lines_view(lines@),
            nodes_from(all, i as int, nodes_view(out@), depth as nat) == nodes_from(
                all,
                0,
                Seq::empty(),
                depth as nat,
            ),
        decreases lines.len() - i,
    {
        let ghost before = nodes_view(out@);
        assert(all[i as int] == lines[i as int]@);
        let marker = if depth == 0 {
            None
        } else {
            marker_in(&lines[i])
        };
        match marker {
            None => {
                let line = &lines[i];
                let node = if line.len() == 3 && line[0] == '.' && line[1] == '.' && line[2]
                    == '.' {
                    assert(line@ =~= seq!['.', '.', '.']);
                    Node::ellipsis()
                } else {
                    Node::new_line(crate::text::string_of(line).as_str())
                };
                out.push(node);
                assert(nodes_view(out@) =~= before.push(node@));
                i += 1;
            },
            Some(m) => {
                let mut j: usize = i + 1;
                while j < lines.len() && same_marker(&lines[j], &m)
                    invariant
                        i < j <= lines.len(),
                        all == lines_view(lines@),
                        block_end(all, j as int, m@) == block_end(all, i + 1, m@),
                    decreases lines.len() - j,
                {
                    assert(all[j as int] == lines[j as int]@);
                    j += 1;
                }
                proof {
                    if j < lines.len() {
                        assert(all[j as int] == lines[j as int]@);
                    }
                }
                let mut content: Vec<Vec<char>> = Vec::new();
                let mut k: usize = i;
                while k < j
                    invariant
                        i <= k <= j <= lines.len(),
                        all == lines_view(lines@),
                        content.len() == k - i,
                        forall|t: int|
                            0 <= t < content.len() ==> (#[trigger] content[t])@ == unmarked(
                                all[i + t],
                                m@,
                            ),
                    decreases j - k,
                {
                    assert(all[k as int] == lines[k as int]@);
                    let line = &lines[k];
                    let piece = if line.len() <= m.len() {
                        let e: Vec<char> = Vec::new();
                        assert(e@ =~= Seq::<char>::empty());
                        e
                    } else {
                        let p = copy_range(line, m.len() + 1, line.len());
                        assert(line@.subrange(m.len() + 1, line.len() as int) =~= line@.skip(
                            m.len() + 1,
                        ));
                        p
                    };
                    content.push(piece);
                    k += 1;
                }
                let ghost cv = content_of(all, i as int, j as int, m@);
                assert(lines_view(content@) =~= cv);
                let node = make_block(m, content, depth - 1);
                out.push(node);
                assert(nodes_view(out@) =~= before.push(node@));
                i = j;
            },
        }
    }
    out
}

/// Makes the block with the marker `marker` of the content `content`.
fn make_block(marker: Vec<char>, content: Vec<Vec<char>>, depth: usize) -> (r: Node)
    ensures
        r@ == block_of(
            marker@,
            lines_view(content@),
            nodes_from(body_of(lines_view(content@)), 0, Seq::empty(), depth as nat),
        ),
    decreases depth, 1nat,
{
    let ghost cv = lines_view(content@);
    let mut node = Node::empty(Rule::Block);
    node.marker = Some(crate::text::string_of(&marker));
    proof {
        lemma_children_view(node);
    }
    let opener = if content.len() > 0 {
        assert(cv[0] == content[0]@);
        open(&content[0])
    } else {
        None
    };
    let mut body: Vec<Vec<char>> = Vec::new();
    let mut skip: usize = 0;
    match opener {
        Some(o) => {
            node.headers = Some(o.headers);
            proof {
                lemma_children_view(node);
            }
            let mut b = crate::ast::NodeBuilder { node };
            match o.props {
                None => {},
                Some(Some(p)) => {
                    b = b.props(p);
                },
                Some(None) => {
                    b = b.add_error("invalid props");
                },
            }
            node = b.done();
            if o.rest.len() > 0 {
                body.push(o.rest);
            }
            skip = 1;
        },
        None => {},
    }
    let ghost first = lines_view(body@);
    let mut content = content;
    let n = content.len();
    let mut rest: Vec<Vec<char>> = Vec::new();
    while content.len() > skip
        invariant
            content.len() + rest.len() == n,
            n == cv.len(),
            skip <= content.len(),
            forall|t: int| 0 <= t < content.len() ==> content[t]@ == cv[t],
            forall|t: int| 0 <= t < rest.len() ==> rest[t]@ == cv[n - 1 - t],
        decreases content.len(),
    {
        match content.pop() {
            Some(l) => {
                rest.push(l);
            },
            None => {},
        }
    }
    let mut k: usize = skip;
    while k < n
        invariant
            skip <= k <= n,
            n == cv.len(),
            rest.len() == n - k,
            forall|t: int| 0 <= t < rest.len() ==> rest[t]@ == cv[n - 1 - t],
            lines_view(body@) == first + cv.subrange(skip as int, k as int),
        decreases n - k,
    {
        let ghost before = lines_view(body@);
        match rest.pop() {
            Some(l) => {
                assert(l@ == cv[k as int]);
                body.push(l);
                assert(lines_view(body@) =~= before.push(cv[k as int]));
                assert(cv.subrange(skip as int, k + 1) =~= cv.subrange(skip as int, k as int).push(
                    cv[k as int],
                ));
            },
            None => {},
        }
        k += 1;
    }
    assert(cv.subrange(skip as int, n as int) =~= cv.skip(skip as int));
    assert(lines_view(body@) =~= body_of(cv));
    if body.len() == 0 {
        node
    } else {
        let children = parse_lines(&body, depth);
        let mut section = Node::empty(Rule::Section);
        section.children = Some(children);
        proof {
            lemma_children_view(section);
        }
        crate::ast::NodeBuilder { node }.add_child(section).done()
    }
}

/// Parse input to AST
pub fn parse(input: &str) -> (r: Result<Node, LibError>)
    ensures
        r is Ok,
        r->Ok_0@ == parsed(input@),
{
    let texts = crate::text::split_all(input, '\n');
    let mut lines: Vec<Vec<char>> = Vec::new();
    let mut i: usize = 0;
    let mut depth: usize = 0;
    let n = if texts.len() > 0 && texts[texts.len() - 1].as_str().is_empty() {
        texts.len() - 1
    } else {
        texts.len()
    };
    proof {
        assert(texts.deep_view() == crate::text::split_char(input@, '\n'));
        if texts.len() > 0 {
            assert(texts.deep_view().last() == texts[texts.len() - 1]@);
        }
        assert(lines_of(input@) =~= texts.deep_view().take(n as int));
    }
    let ghost all = lines_of(input@);
    assert(lines_view(lines@) =~= all.take(0));
    while i < n
        invariant
            i <= n <= texts.len(),
            all == texts.deep_view().take(n as int),
            lines_view(lines@) == all.take(i as int),
            depth == longest(all, i as int),
        decreases n - i,
    {
        let ghost before = lines_view(lines@);
        let line = chars_of(texts[i].as_str());
        assert(all[i as int] == texts[i as int]@);
        if line.len() > depth {
            depth = line.len();
        }
        lines.push(line);
        assert(lines_view(lines@) =~= before.push(all[i as int]));
        assert(all.take(i + 1) =~= all.take(i as int).push(all[i as int]));
        i += 1;
    }
    assert(all.take(n as int) =~= all);
    let deep = if depth < usize::MAX {
        depth + 1
    } else {
        depth
    };
    let nodes = parse_lines(&lines, deep);
    let mut section = Node::empty(Rule::Section);
    section.children = Some(nodes);
    proof {
        lemma_children_view(section);
    }
    let root = crate::ast::NodeBuilder::root().add_child(section).done();
    Ok(root)
}

} // verus!
