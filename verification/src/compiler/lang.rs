//! A language: named rule lists, and the interpreter of their instructions.
use crate::ast::{lemma_children_view, values_of, Node, NodeV, Props};
use crate::compiler::rule::{
    instrs_view, pattern_matches, rules_view, Context, CtxV, InstrV, LangInstr, LangRule,
    LangSettings, RuleV,
};
use crate::compiler::rule_argument::Arg;
use crate::text::{chars_of, copy_str, has_at, join, join_all, occurs_at, str_eq, string_of};
use crate::types::{
    deps_view, deps_with, insert_dependency, Dependency, DependencyV, ExecArtifact, ExecArtifactV,
    LibError, LibErrorV,
};
use vstd::prelude::*;
use vstd::string::*;

verus! {

/// What one character becomes in HTML text.
pub open spec fn escaped_char(c: char) -> Seq<char> {
    if c == '&' {
        seq!['&', 'a', 'm', 'p', ';']
    } else if c == '<' {
        seq!['&', 'l', 't', ';']
    } else if c == '>' {
        seq!['&', 'g', 't', ';']
    } else {
        seq![c]
    }
}

/// `s` with `&`, `<` and `>` written as HTML entities.
pub open spec fn html_escaped(s: Seq<char>) -> Seq<char>
    decreases s.len(),
{
    if s.len() == 0 {
        Seq::empty()
    } else {
        html_escaped(s.drop_last()) + escaped_char(s.last())
    }
}

/// Escapes text for an HTML text node with `htmlize::escape_text`, which
/// writes `&` as `&amp;`, `<` as `&lt;` and `>` as `&gt;` and keeps every
/// other character.
#[verifier::external_body]
pub(crate) fn escape_text(s: &str) -> (r: String)
    ensures
        r@ == html_escaped(s@),
{
    htmlize::escape_text(s).into_owned()
}

/// What the placeholders of a template stand for.
pub struct Env {
    /// For `\v`.
    pub value: Seq<char>,
    /// For `\m`.
    pub marker: Seq<char>,
    /// For `$name`, first.
    pub props: Seq<(Seq<char>, Seq<char>)>,
    /// For `$name`, second: the stacks by name.
    pub names: Seq<Seq<char>>,
    pub frames: Seq<Seq<Seq<char>>>,
}

/// The environment that a node and a context make under the given settings:
/// the value is escaped for HTML unless the settings say otherwise.
pub open spec fn env_of(node: NodeV, ctx: CtxV, set: LangSettings) -> Env {
    Env {
        value: match node.value {
            Some(v) => if set.is_unescaped_value {
                v
            } else {
                html_escaped(v)
            },
            None => Seq::empty(),
        },
        marker: match node.marker {
            Some(m) => m,
            None => Seq::empty(),
        },
        props: match node.props {
            Some(p) => p,
            None => Seq::empty(),
        },
        names: ctx.names,
        frames: ctx.frames,
    }
}

/// Index of the first property at or after `from` whose name stands at
/// `at` in `t`; `props.len()` when there is none.
pub open spec fn prop_at(t: Seq<char>, at: int, props: Seq<(Seq<char>, Seq<char>)>, from: int) -> int
    decreases props.len() - from,
{
    if from >= props.len() {
        props.len() as int
    } else if occurs_at(t, at, props[from].0) {
        from
    } else {
        prop_at(t, at, props, from + 1)
    }
}

/// Index of the first stack at or after `from` that has a frame and whose
/// name stands at `at` in `t`; `names.len()` when there is none.
pub open spec fn stack_at(
    t: Seq<char>,
    at: int,
    names: Seq<Seq<char>>,
    frames: Seq<Seq<Seq<char>>>,
    from: int,
) -> int
    decreases names.len() - from,
{
    if from >= names.len() || from >= frames.len() {
        names.len() as int
    } else if frames[from].len() > 0 && occurs_at(t, at, names[from]) {
        from
    } else {
        stack_at(t, at, names, frames, from + 1)
    }
}

/// What stands for the placeholder at `i` in `t`, and where the template
/// goes on: `\"`, `\v`, `\m` and `\n` give a quote, the value, the marker
/// and a newline; `$name` gives the property of that name, else the top of
/// the stack of that name; anything else stands for itself.
pub open spec fn expand_step(t: Seq<char>, i: int, env: Env) -> (Seq<char>, int) {
    if t[i] == '\\' && i + 1 < t.len() && t[i + 1] == '"' {
        (seq!['"'], i + 2)
    } else if t[i] == '\\' && i + 1 < t.len() && t[i + 1] == 'v' {
        (env.value, i + 2)
    } else if t[i] == '\\' && i + 1 < t.len() && t[i + 1] == 'm' {
        (env.marker, i + 2)
    } else if t[i] == '\\' && i + 1 < t.len() && t[i + 1] == 'n' {
        (seq!['\n'], i + 2)
    } else if t[i] == '$' {
        let p = prop_at(t, i + 1, env.props, 0);
        let k = stack_at(t, i + 1, env.names, env.frames, 0);
        if p < env.props.len() {
            (env.props[p].1, i + 1 + env.props[p].0.len())
        } else if k < env.names.len() {
            (env.frames[k].last(), i + 1 + env.names[k].len())
        } else {
            (seq![t[i]], i + 1)
        }
    } else {
        (seq![t[i]], i + 1)
    }
}

/// The expansion of `t` from `i` on, in one pass from left to right.
pub open spec fn expand_from(t: Seq<char>, i: int, env: Env) -> Seq<char>
    decreases t.len() - i,
{
    if i < 0 || i >= t.len() {
        Seq::empty()
    } else {
        let (piece, next) = expand_step(t, i, env);
        if next <= i || next > t.len() {
            Seq::empty()
        } else {
            piece + expand_from(t, next, env)
        }
    }
}

/// The expansion of the template `t`.
pub open spec fn expand(t: Seq<char>, env: Env) -> Seq<char> {
    expand_from(t, 0, env)
}

/// `\v` stands for the value of the node: as it is where the settings
/// say so, and with `&`, `<` and `>` written as HTML entities otherwise.
pub proof fn lemma_value_escaping(node: NodeV, ctx: CtxV, set: LangSettings, value: Seq<char>)
    requires
        node.value == Some(value),
    ensures
        expand(seq!['\\', 'v'], env_of(node, ctx, set)) == if set.is_unescaped_value {
            value
        } else {
            html_escaped(value)
        },
{
    let t = seq!['\\', 'v'];
    let env = env_of(node, ctx, set);
    assert(expand_step(t, 0, env) == (env.value, 2int));
    assert(expand_from(t, 2, env) =~= Seq::<char>::empty());
    assert(expand_from(t, 0, env) =~= env.value + expand_from(t, 2, env));
    assert(env.value + Seq::<char>::empty() =~= env.value);
}

/// The first property whose name stands at `at` in `t`.
fn find_prop_at(t: &Vec<char>, at: usize, props: &Props) -> (r: Option<usize>)
    ensures
        match r {
            Some(p) => p == prop_at(t@, at as int, props.deep_view(), 0) && p < props.len()
                && occurs_at(t@, at as int, props.deep_view()[p as int].0),
            None => prop_at(t@, at as int, props.deep_view(), 0) == props.len(),
        },
{
    let mut i: usize = 0;
    while i < props.len()
        invariant
            i <= props.len(),
            prop_at(t@, at as int, props.deep_view(), i as int) == prop_at(
                t@,
                at as int,
                props.deep_view(),
                0,
            ),
        decreases props.len() - i,
    {
        let name = chars_of(props[i].0.as_str());
        if has_at(t, at, &name) {
            return Some(i);
        }
        i += 1;
    }
    None
}

/// The first stack with a frame whose name stands at `at` in `t`.
fn find_stack_at(t: &Vec<char>, at: usize, ctx: &Context) -> (r: Option<usize>)
    requires
        ctx.wf(),
    ensures
        match r {
            Some(k) => k == stack_at(t@, at as int, ctx@.names, ctx@.frames, 0) && k
                < ctx.stacks.keys.len() && ctx.stacks.vals[k as int].len() > 0 && occurs_at(
                t@,
                at as int,
                ctx@.names[k as int],
            ),
            None => stack_at(t@, at as int, ctx@.names, ctx@.frames, 0) == ctx@.names.len(),
        },
{
    let mut i: usize = 0;
    while i < ctx.stacks.keys.len()
        invariant
            i <= ctx.stacks.keys.len(),
            ctx.wf(),
            stack_at(t@, at as int, ctx@.names, ctx@.frames, i as int) == stack_at(
                t@,
                at as int,
                ctx@.names,
                ctx@.frames,
                0,
            ),
        decreases ctx.stacks.keys.len() - i,
    {
        let name = chars_of(ctx.stacks.keys[i].as_str());
        if ctx.stacks.vals[i].len() > 0 && has_at(t, at, &name) {
            return Some(i);
        }
        i += 1;
    }
    None
}

fn push_all(out: &mut Vec<char>, s: &str)
    ensures
        final(out)@ == old(out)@ + s@,
{
    let v = chars_of(s);
    let mut i: usize = 0;
    while i < v.len()
        invariant
            i <= v.len(),
            out@ == old(out)@ + v@.take(i as int),
        decreases v.len() - i,
    {
        out.push(v[i]);
        assert(v@.take(i + 1) =~= v@.take(i as int).push(v@[i as int]));
        i += 1;
    }
    assert(v@.take(v.len() as int) =~= v@);
}

/// Expands the placeholders of `template` for `node` and `ctx`.
pub fn replace(template: &str, ctx: &Context, node: &Node, settings: &LangSettings) -> (r: String)
    requires
        ctx.wf(),
    ensures
        r@ == expand(template@, env_of(node@, ctx@, *settings)),
{
    proof {
        lemma_children_view(*node);
    }
    let ghost env = env_of(node@, ctx@, *settings);
    let t = chars_of(template);
    let value: String = match &node.value {
        Some(v) => if settings.is_unescaped_value {
            crate::text::copy_str(v.as_str())
        } else {
            escape_text(v.as_str())
        },
        None => String::new(),
    };
    let mut out: Vec<char> = Vec::new();
    let mut i: usize = 0;
    while i < t.len()
        invariant
            i <= t.len(),
            ctx.wf(),
            t@ == template@,
            env == env_of(node@, ctx@, *settings),
            value@ == env.value,
            node@.props == node.props.deep_view(),
            node@.marker == node.marker.deep_view(),
            out@ + expand_from(t@, i as int, env) == expand(t@, env),
        decreases t.len() - i,
    {
        let ghost before = out@;
        let c = t[i];
        let mut next: usize = i + 1;
        if c == '\\' && i + 1 < t.len() && t[i + 1] == '"' {
            out.push('"');
            next = i + 2;
        } else if c == '\\' && i + 1 < t.len() && t[i + 1] == 'v' {
            push_all(&mut out, value.as_str());
            next = i + 2;
        } else if c == '\\' && i + 1 < t.len() && t[i + 1] == 'm' {
            match &node.marker {
                Some(m) => push_all(&mut out, m.as_str()),
                None => {},
            }
            next = i + 2;
        } else if c == '\\' && i + 1 < t.len() && t[i + 1] == 'n' {
            out.push('\n');
            next = i + 2;
        } else if c == '$' {
            let found_prop = match &node.props {
                Some(props) => match find_prop_at(&t, i + 1, props) {
                    Some(p) => {
                        push_all(&mut out, props[p].1.as_str());
                        let n = props[p].0.as_str().unicode_len();
                        next = i + 1 + n;
                        true
                    },
                    None => false,
                },
                None => false,
            };
            if !found_prop {
                match find_stack_at(&t, i + 1, ctx) {
                    Some(k) => {
                        let f = &ctx.stacks.vals[k];
                        push_all(&mut out, f[f.len() - 1].as_str());
                        let n = ctx.stacks.keys[k].as_str().unicode_len();
                        next = i + 1 + n;
                    },
                    None => {
                        out.push(c);
                    },
                }
            }
        } else {
            out.push(c);
        }
        proof {
            let (piece, nx) = expand_step(t@, i as int, env);
            assert(nx == next);
            assert(out@ =~= before + piece);
            assert(out@ + expand_from(t@, next as int, env) =~= before + (piece + expand_from(
                t@,
                next as int,
                env,
            )));
        }
        i = next;
    }
    string_of(&out)
}

/// What an instruction asks for, once its opcode and the kinds of its
/// arguments are read.
pub enum Decoded<'a> {
    Drain(&'a String),
    Exec { cmd: &'a String, to_file: bool, dest: &'a String, id: &'a String },
    PopStack(&'a String),
    PopProp(&'a String),
    PushStr(&'a String, &'a String),
    PushStack(&'a String, &'a String),
    PushProp(&'a String, &'a String),
    SetTop(&'a String, &'a String),
    Swap(&'a String, &'a String),
    WriteStack(&'a String),
    WriteStr(&'a String),
    WriteAll(&'a String),
    WriteAllSep(&'a String, &'a String),
    Yield,
    Noop,
    Invalid,
}

/// Model of a [`Decoded`].
pub enum DecodedV {
    Drain(Seq<char>),
    Exec { cmd: Seq<char>, to_file: bool, dest: Seq<char>, id: Seq<char> },
    PopStack(Seq<char>),
    PopProp(Seq<char>),
    PushStr(Seq<char>, Seq<char>),
    PushStack(Seq<char>, Seq<char>),
    PushProp(Seq<char>, Seq<char>),
    SetTop(Seq<char>, Seq<char>),
    Swap(Seq<char>, Seq<char>),
    WriteStack(Seq<char>),
    WriteStr(Seq<char>),
    WriteAll(Seq<char>),
    WriteAllSep(Seq<char>, Seq<char>),
    Yield,
    Noop,
    Invalid,
}

impl<'a> View for Decoded<'a> {
    type V = DecodedV;

    open spec fn view(&self) -> DecodedV {
        match self {
            Decoded::Drain(s) => DecodedV::Drain(s@),
            Decoded::Exec { cmd, to_file, dest, id } => DecodedV::Exec {
                cmd: cmd@,
                to_file: *to_file,
                dest: dest@,
                id: id@,
            },
            Decoded::PopStack(s) => DecodedV::PopStack(s@),
            Decoded::PopProp(p) => DecodedV::PopProp(p@),
            Decoded::PushStr(t, v) => DecodedV::PushStr(t@, v@),
            Decoded::PushStack(t, s) => DecodedV::PushStack(t@, s@),
            Decoded::PushProp(t, p) => DecodedV::PushProp(t@, p@),
            Decoded::SetTop(t, v) => DecodedV::SetTop(t@, v@),
            Decoded::Swap(t, s) => DecodedV::Swap(t@, s@),
            Decoded::WriteStack(s) => DecodedV::WriteStack(s@),
            Decoded::WriteStr(v) => DecodedV::WriteStr(v@),
            Decoded::WriteAll(s) => DecodedV::WriteAll(s@),
            Decoded::WriteAllSep(s, sep) => DecodedV::WriteAllSep(s@, sep@),
            Decoded::Yield => DecodedV::Yield,
            Decoded::Noop => DecodedV::Noop,
            Decoded::Invalid => DecodedV::Invalid,
        }
    }
}

/// How an instruction is read: by its opcode and by the number and kinds
/// of its arguments. `YIELD` and `NOOP` take any arguments; whatever fits
/// no line of the instruction set is invalid.
pub open spec fn decoded(inst: InstrV) -> DecodedV {
    let a = inst.args;
    if inst.op == "DRAIN"@ && a.len() == 1 && a[0] is StackRef {
        DecodedV::Drain(a[0]->StackRef_0)
    } else if inst.op == "EXEC"@ && a.len() == 3 && a[0] is Str && a[1] is MediaType
        && a[2] is URIPath {
        DecodedV::Exec {
            cmd: a[0]->Str_0,
            to_file: false,
            dest: a[1]->MediaType_0,
            id: a[2]->URIPath_0,
        }
    } else if inst.op == "EXEC"@ && a.len() == 3 && a[0] is Str && a[1] is File
        && a[2] is URIPath {
        DecodedV::Exec { cmd: a[0]->Str_0, to_file: true, dest: a[1]->File_0, id: a[2]->URIPath_0 }
    } else if inst.op == "POP"@ && a.len() == 1 && a[0] is StackRef {
        DecodedV::PopStack(a[0]->StackRef_0)
    } else if inst.op == "POP"@ && a.len() == 1 && a[0] is PropRef {
        DecodedV::PopProp(a[0]->PropRef_0)
    } else if inst.op == "PUSH"@ && a.len() == 2 && a[0] is StackRef && a[1] is Str {
        DecodedV::PushStr(a[0]->StackRef_0, a[1]->Str_0)
    } else if inst.op == "PUSH"@ && a.len() == 2 && a[0] is StackRef && a[1] is StackRef {
        DecodedV::PushStack(a[0]->StackRef_0, a[1]->StackRef_0)
    } else if inst.op == "PUSH"@ && a.len() == 2 && a[0] is StackRef && a[1] is PropRef {
        DecodedV::PushProp(a[0]->StackRef_0, a[1]->PropRef_0)
    } else if inst.op == "SET"@ && a.len() == 2 && a[0] is StackRef && a[1] is Str {
        DecodedV::SetTop(a[0]->StackRef_0, a[1]->Str_0)
    } else if inst.op == "SWAP"@ && a.len() == 2 && a[0] is StackRef && a[1] is StackRef {
        DecodedV::Swap(a[0]->StackRef_0, a[1]->StackRef_0)
    } else if inst.op == "WRITE"@ && a.len() == 1 && a[0] is StackRef {
        DecodedV::WriteStack(a[0]->StackRef_0)
    } else if inst.op == "WRITE"@ && a.len() == 1 && a[0] is Str {
        DecodedV::WriteStr(a[0]->Str_0)
    } else if inst.op == "WRITEALL"@ && a.len() == 1 && a[0] is StackRef {
        DecodedV::WriteAll(a[0]->StackRef_0)
    } else if inst.op == "WRITEALL"@ && a.len() == 2 && a[0] is StackRef && a[1] is Str {
        DecodedV::WriteAllSep(a[0]->StackRef_0, a[1]->Str_0)
    } else if inst.op == "YIELD"@ {
        DecodedV::Yield
    } else if inst.op == "NOOP"@ {
        DecodedV::Noop
    } else {
        DecodedV::Invalid
    }
}

/// Reads an instruction.
pub fn decode<'a>(inst: &'a LangInstr) -> (r: Decoded<'a>)
    ensures
        r@ == decoded(inst@),
{
    let op = inst.op.as_str();
    let a = &inst.args;
    let n = a.len();
    if n == 1 {
        match &a[0] {
            Arg::StackRef(s) => {
                if str_eq(op, "DRAIN") {
                    return Decoded::Drain(s);
                } else if str_eq(op, "POP") {
                    return Decoded::PopStack(s);
                } else if str_eq(op, "WRITE") {
                    return Decoded::WriteStack(s);
                } else if str_eq(op, "WRITEALL") {
                    return Decoded::WriteAll(s);
                }
            },
            Arg::PropRef(p) => {
                if str_eq(op, "POP") {
                    return Decoded::PopProp(p);
                }
            },
            Arg::Str(v) => {
                if str_eq(op, "WRITE") {
                    return Decoded::WriteStr(v);
                }
            },
            _ => {},
        }
    } else if n == 2 {
        match (&a[0], &a[1]) {
            (Arg::StackRef(t), Arg::Str(v)) => {
                if str_eq(op, "PUSH") {
                    return Decoded::PushStr(t, v);
                } else if str_eq(op, "SET") {
                    return Decoded::SetTop(t, v);
                } else if str_eq(op, "WRITEALL") {
                    return Decoded::WriteAllSep(t, v);
                }
            },
            (Arg::StackRef(t), Arg::StackRef(s)) => {
                if str_eq(op, "PUSH") {
                    return Decoded::PushStack(t, s);
                } else if str_eq(op, "SWAP") {
                    return Decoded::Swap(t, s);
                }
            },
            (Arg::StackRef(t), Arg::PropRef(p)) => {
                if str_eq(op, "PUSH") {
                    return Decoded::PushProp(t, p);
                }
            },
            _ => {},
        }
    } else if n == 3 {
        match (&a[0], &a[1], &a[2]) {
            (Arg::Str(cmd), Arg::MediaType(t), Arg::URIPath(id)) => {
                if str_eq(op, "EXEC") {
                    return Decoded::Exec { cmd, to_file: false, dest: t, id };
                }
            },
            (Arg::Str(cmd), Arg::File(p), Arg::URIPath(id)) => {
                if str_eq(op, "EXEC") {
                    return Decoded::Exec { cmd, to_file: true, dest: p, id };
                }
            },
            _ => {},
        }
    }
    if str_eq(op, "YIELD") {
        Decoded::Yield
    } else if str_eq(op, "NOOP") {
        Decoded::Noop
    } else {
        Decoded::Invalid
    }
}

/// What the interpreter works on: the stacks, the node at hand, the
/// dependencies found so far and the text written so far.
pub struct Vm {
    pub ctx: CtxV,
    pub node: NodeV,
    pub deps: Seq<DependencyV>,
    pub out: Seq<char>,
}

/// What one instruction does.
pub enum Step {
    /// The interpreter goes on in this state.
    Next(Vm),
    /// The rule is suspended until the children are done.
    Yield,
    /// The instruction fits no line of the instruction set.
    Invalid,
}

/// The children's values joined by newlines, for a node that has children.
pub open spec fn exec_input(node: NodeV) -> Option<Seq<char>> {
    match node.children {
        Some(c) => Some(join(values_of(c), "\n"@)),
        None => None,
    }
}

/// What a decoded instruction does to the state.
pub open spec fn apply(d: DecodedV, vm: Vm, set: LangSettings) -> Step {
    let env = env_of(vm.node, vm.ctx, set);
    match d {
        DecodedV::Drain(s) => Step::Next(Vm { ctx: vm.ctx.drained(s), ..vm }),
        DecodedV::Exec { cmd, to_file, dest, id } => Step::Next(
            Vm {
                deps: deps_with(
                    vm.deps,
                    DependencyV::Exec {
                        id: expand(id, env),
                        cmd: expand(cmd, env),
                        input: exec_input(vm.node),
                        artifact: if to_file {
                            ExecArtifactV::Path(expand(dest, env))
                        } else {
                            ExecArtifactV::Stdout(expand(dest, env))
                        },
                    },
                ),
                ..vm
            },
        ),
        DecodedV::PopStack(s) => Step::Next(Vm { ctx: vm.ctx.popped(s), ..vm }),
        DecodedV::PopProp(p) => Step::Next(Vm { node: vm.node.without_prop(p), ..vm }),
        DecodedV::PushStr(t, v) => Step::Next(
            Vm {
                ctx: vm.ctx.pushed(t, expand(v, env)),
                node: if t == "src"@ || t == "ref"@ {
                    vm.node.with_prop(t, expand(v, env))
                } else {
                    vm.node
                },
                ..vm
            },
        ),
        DecodedV::PushStack(t, s) => match vm.ctx.top(s) {
            Some(v) => Step::Next(Vm { ctx: vm.ctx.pushed(t, v), ..vm }),
            None => Step::Next(vm),
        },
        DecodedV::PushProp(t, p) => match vm.node.find_prop(p) {
            Some(v) => Step::Next(Vm { ctx: vm.ctx.pushed(t, v), ..vm }),
            None => Step::Next(vm),
        },
        DecodedV::SetTop(t, v) => Step::Next(Vm { ctx: vm.ctx.with_top(t, expand(v, env)), ..vm }),
        DecodedV::Swap(t, s) => Step::Next(Vm { ctx: vm.ctx.swapped(t, s), ..vm }),
        DecodedV::WriteStack(s) => match vm.ctx.top(s) {
            Some(v) => Step::Next(Vm { out: vm.out + v, ..vm }),
            None => Step::Next(vm),
        },
        DecodedV::WriteStr(v) => Step::Next(Vm { out: vm.out + expand(v, env), ..vm }),
        DecodedV::WriteAll(s) => match vm.ctx.stack(s) {
            Some(f) => Step::Next(Vm { out: vm.out + join(f, Seq::empty()), ..vm }),
            None => Step::Next(vm),
        },
        DecodedV::WriteAllSep(s, sep) => match vm.ctx.stack(s) {
            Some(f) => Step::Next(Vm { out: vm.out + join(f, sep), ..vm }),
            None => Step::Next(vm),
        },
        DecodedV::Yield => Step::Yield,
        DecodedV::Noop => Step::Next(vm),
        DecodedV::Invalid => Step::Invalid,
    }
}

/// What one instruction does to the state.
pub open spec fn step(inst: InstrV, vm: Vm, set: LangSettings) -> Step {
    apply(decoded(inst), vm, set)
}

/// How a run of instructions ends.
pub struct Run {
    /// The state that the run leaves.
    pub vm: Vm,
    /// The instruction at which a later run goes on.
    pub pc: int,
    /// The text of the instruction that was invalid, if one was.
    pub failed: Option<Seq<char>>,
}

/// Runs `instrs` from `pc` until a `YIELD`, an invalid instruction or the
/// end of the list; the cursor that is left stands behind the instruction
/// that ended the run.
pub open spec fn run_from(instrs: Seq<InstrV>, pc: int, vm: Vm, set: LangSettings) -> Run
    decreases instrs.len() - pc,
{
    if pc < 0 || pc >= instrs.len() {
        Run { vm, pc, failed: None }
    } else {
        match step(instrs[pc], vm, set) {
            Step::Next(next) => run_from(instrs, pc + 1, next, set),
            Step::Yield => Run { vm, pc: pc + 1, failed: None },
            Step::Invalid => Run { vm, pc: pc + 1, failed: Some(instrs[pc].text()) },
        }
    }
}

/// What `exec_step` reports.
pub enum Outcome {
    Next,
    Yield,
    Invalid,
}

/// Carries out one instruction on the state.
pub fn exec_step(
    inst: &LangInstr,
    ctx: &mut Context,
    deps: &mut Vec<Dependency>,
    node: &mut Node,
    out: &mut String,
    set: &LangSettings,
) -> (r: Outcome)
    requires
        old(ctx).wf(),
    ensures
        final(ctx).wf(),
        match step(
            inst@,
            Vm { ctx: old(ctx)@, node: old(node)@, deps: deps_view(old(deps)@), out: old(out)@ },
            *set,
        ) {
            Step::Next(vm) => {
                &&& r is Next
                &&& final(ctx)@ == vm.ctx
                &&& final(node)@ == vm.node
                &&& deps_view(final(deps)@) == vm.deps
                &&& final(out)@ == vm.out
            },
            Step::Yield => {
                &&& r is Yield
                &&& final(ctx)@ == old(ctx)@
                &&& final(node)@ == old(node)@
                &&& deps_view(final(deps)@) == deps_view(old(deps)@)
                &&& final(out)@ == old(out)@
            },
            Step::Invalid => {
                &&& r is Invalid
                &&& final(ctx)@ == old(ctx)@
                &&& final(node)@ == old(node)@
                &&& deps_view(final(deps)@) == deps_view(old(deps)@)
                &&& final(out)@ == old(out)@
            },
        },
{
    match decode(inst) {
        Decoded::Drain(s) => {
            ctx.drain(s.as_str());
            Outcome::Next
        },
        Decoded::Exec { cmd, to_file, dest, id } => {
            let cmd = replace(cmd.as_str(), ctx, node, set);
            let id = replace(id.as_str(), ctx, node, set);
            let dest = replace(dest.as_str(), ctx, node, set);
            let artifact = if to_file {
                ExecArtifact::Path(dest)
            } else {
                ExecArtifact::Stdout(dest)
            };
            let input = match node.child_values() {
                Some(values) => Some(join_all(&values, "\n")),
                None => None,
            };
            insert_dependency(deps, Dependency::Exec { cmd, input, id, artifact });
            Outcome::Next
        },
        Decoded::PopStack(s) => {
            ctx.pop(s.as_str());
            Outcome::Next
        },
        Decoded::PopProp(p) => {
            node.remove_prop(p.as_str());
            Outcome::Next
        },
        Decoded::PushStr(t, v) => {
            let value = replace(v.as_str(), ctx, node, set);
            if str_eq(t.as_str(), "src") || str_eq(t.as_str(), "ref") {
                ctx.push(t.as_str(), copy_str(value.as_str()));
                node.add_prop(t.as_str(), value);
            } else {
                ctx.push(t.as_str(), value);
            }
            Outcome::Next
        },
        Decoded::PushStack(t, s) => {
            let value = match ctx.top(s.as_str()) {
                Some(v) => Some(copy_str(v.as_str())),
                None => None,
            };
            match value {
                Some(v) => ctx.push(t.as_str(), v),
                None => {},
            }
            Outcome::Next
        },
        Decoded::PushProp(t, p) => {
            match node.find_prop(p.as_str()) {
                Some(v) => ctx.push(t.as_str(), v),
                None => {},
            }
            Outcome::Next
        },
        Decoded::SetTop(t, v) => {
            let value = replace(v.as_str(), ctx, node, set);
            ctx.set_top(t.as_str(), value);
            Outcome::Next
        },
        Decoded::Swap(t, s) => {
            ctx.swap(t.as_str(), s.as_str());
            Outcome::Next
        },
        Decoded::WriteStack(s) => {
            match ctx.top(s.as_str()) {
                Some(v) => out.append(v.as_str()),
                None => {},
            }
            Outcome::Next
        },
        Decoded::WriteStr(v) => {
            let value = replace(v.as_str(), ctx, node, set);
            out.append(value.as_str());
            Outcome::Next
        },
        Decoded::WriteAll(s) => {
            match ctx.stack(s.as_str()) {
                Some(f) => {
                    let all = join_all(f, "");
                    proof {
                        reveal_strlit("");
                        assert(""@ =~= Seq::<char>::empty());
                    }
                    out.append(all.as_str());
                },
                None => {},
            }
            Outcome::Next
        },
        Decoded::WriteAllSep(s, sep) => {
            match ctx.stack(s.as_str()) {
                Some(f) => {
                    let all = join_all(f, sep.as_str());
                    out.append(all.as_str());
                },
                None => {},
            }
            Outcome::Next
        },
        Decoded::Yield => Outcome::Yield,
        Decoded::Noop => Outcome::Next,
        Decoded::Invalid => Outcome::Invalid,
    }
}

/// The rules that apply to `path`, from rule `i` on: the matching rules in
/// order, up to and including the first that is not composable.
pub open spec fn select_from(rules: Seq<RuleV>, path: Seq<char>, i: int) -> Seq<int>
    decreases rules.len() - i,
{
    if i < 0 || i >= rules.len() {
        Seq::empty()
    } else if pattern_matches(rules[i].regex, path) {
        if rules[i].settings.is_composable {
            seq![i] + select_from(rules, path, i + 1)
        } else {
            seq![i]
        }
    } else {
        select_from(rules, path, i + 1)
    }
}

/// The rules that apply to `path`, as indices into `rules`.
pub open spec fn selected(rules: Seq<RuleV>, path: Seq<char>) -> Seq<int> {
    select_from(rules, path, 0)
}

/// Every selected index names a rule, all but the last are composable,
/// and the indices rise.
pub proof fn lemma_select_from(rules: Seq<RuleV>, path: Seq<char>, i: int)
    requires
        0 <= i,
    ensures
        forall|k: int|
            0 <= k < select_from(rules, path, i).len() ==> i <= #[trigger] select_from(
                rules,
                path,
                i,
            )[k] < rules.len(),
        forall|k: int|
            0 <= k < select_from(rules, path, i).len() ==> pattern_matches(
                rules[#[trigger] select_from(rules, path, i)[k]].regex,
                path,
            ),
        forall|k: int|
            0 <= k < select_from(rules, path, i).len() - 1
                ==> rules[#[trigger] select_from(rules, path, i)[k]].settings.is_composable,
        forall|k: int, l: int|
            0 <= k < l < select_from(rules, path, i).len() ==> select_from(rules, path, i)[k]
                < select_from(rules, path, i)[l],
    decreases rules.len() - i,
{
    if i < rules.len() {
        lemma_select_from(rules, path, i + 1);
        let rest = select_from(rules, path, i + 1);
        if pattern_matches(rules[i].regex, path) && rules[i].settings.is_composable {
            let all = select_from(rules, path, i);
            assert(all =~= seq![i] + rest);
            assert forall|k: int| 0 <= k < all.len() implies i <= #[trigger] all[k]
                < rules.len() && pattern_matches(rules[all[k]].regex, path) by {
                if k > 0 {
                    assert(all[k] == rest[k - 1]);
                }
            }
            assert forall|k: int| 0 <= k < all.len() - 1 implies rules[#[trigger] all[k]].settings.is_composable by {
                if k > 0 {
                    assert(all[k] == rest[k - 1]);
                }
            }
            assert forall|k: int, l: int| 0 <= k < l < all.len() implies all[k] < all[l] by {
                assert(all[l] == rest[l - 1]);
                if k > 0 {
                    assert(all[k] == rest[k - 1]);
                }
            }
        }
    }
}

/// The rules of `rules` that apply to `path`, as indices.
pub fn select(rules: &Vec<LangRule>, path: &str) -> (r: Vec<usize>)
    ensures
        r@.map_values(|i: usize| i as int) == selected(rules_view(rules@), path@),
        forall|k: int| 0 <= k < r.len() ==> r[k] < rules.len(),
{
    let mut out: Vec<usize> = Vec::new();
    let mut i: usize = 0;
    let ghost all = rules_view(rules@);
    while i < rules.len()
        invariant
            i <= rules.len(),
            all == rules_view(rules@),
            out@.map_values(|i: usize| i as int) + select_from(all, path@, i as int) == selected(
                all,
                path@,
            ),
            forall|k: int| 0 <= k < out.len() ==> out[k] < rules.len(),
        decreases rules.len() - i,
    {
        let ghost before = out@.map_values(|i: usize| i as int);
        assert(all[i as int] == rules[i as int]@);
        if rules[i].matches(path) {
            out.push(i);
            assert(out@.map_values(|i: usize| i as int) =~= before.push(i as int));
            if !rules[i].settings.is_composable {
                assert(before.push(i as int) =~= before + seq![i as int]);
                return out;
            }
            assert(before.push(i as int) + select_from(all, path@, i + 1) =~= before + (seq![
                i as int,
            ] + select_from(all, path@, i + 1)));
        }
        i += 1;
    }
    assert(out@.map_values(|i: usize| i as int) + Seq::<int>::empty() =~= out@.map_values(
        |i: usize| i as int,
    ));
    out
}

/// No instruction touches anything of a node but its properties.
pub proof fn lemma_step_keeps_tree(inst: InstrV, vm: Vm, set: LangSettings)
    ensures
        step(inst, vm, set) matches Step::Next(next) ==> next.node == (NodeV {
            props: next.node.props,
            ..vm.node
        }),
{
}

/// A run of instructions touches nothing of a node but its properties.
pub proof fn lemma_run_keeps_tree(instrs: Seq<InstrV>, pc: int, vm: Vm, set: LangSettings)
    ensures
        run_from(instrs, pc, vm, set).vm.node == (NodeV {
            props: run_from(instrs, pc, vm, set).vm.node.props,
            ..vm.node
        }),
    decreases instrs.len() - pc,
{
    if 0 <= pc < instrs.len() {
        lemma_step_keeps_tree(instrs[pc], vm, set);
        match step(instrs[pc], vm, set) {
            Step::Next(next) => {
                lemma_run_keeps_tree(instrs, pc + 1, next, set);
            },
            _ => {},
        }
    }
}

/// Where a batch of rules stands: the state, the cursor of each rule that
/// was begun, and the text of the instruction that was invalid, if one was.
pub struct Phase {
    pub vm: Vm,
    pub cursors: Seq<int>,
    pub failed: Option<Seq<char>>,
}

/// The output after a run on top of `before`: what the run wrote is
/// added, unless the run failed, whose text is dropped.
pub open spec fn written(before: Seq<char>, run: Run) -> Seq<char> {
    if run.failed is Some {
        before
    } else {
        before + run.vm.out
    }
}

/// Begins the selected rules `sel[k..]` in order: each runs from its
/// first instruction up to its `YIELD`, under its own settings, and what
/// it writes is added to the output. An invalid instruction ends the
/// batch; what its rule did to the context, the node and the dependencies
/// before it stays done.
pub open spec fn open_from(rules: Seq<RuleV>, sel: Seq<int>, k: int, ph: Phase) -> Phase
    decreases sel.len() - k,
{
    if k < 0 || k >= sel.len() || ph.failed is Some {
        ph
    } else {
        let rule = rules[sel[k]];
        let run = run_from(rule.instructions, 0, Vm { out: Seq::empty(), ..ph.vm }, rule.settings);
        open_from(
            rules,
            sel,
            k + 1,
            Phase {
                vm: Vm { out: written(ph.vm.out, run), ..run.vm },
                cursors: ph.cursors.push(run.pc),
                failed: run.failed,
            },
        )
    }
}

/// Ends the first `k` selected rules, last first: each runs on from its
/// cursor, and what it writes is added to the output.
pub open spec fn close_from(
    rules: Seq<RuleV>,
    sel: Seq<int>,
    cursors: Seq<int>,
    k: int,
    ph: Phase,
) -> Phase
    decreases k,
{
    if k <= 0 || k > sel.len() || k > cursors.len() || ph.failed is Some {
        ph
    } else {
        let rule = rules[sel[k - 1]];
        let run = run_from(
            rule.instructions,
            cursors[k - 1],
            Vm { out: Seq::empty(), ..ph.vm },
            rule.settings,
        );
        close_from(
            rules,
            sel,
            cursors,
            k - 1,
            Phase {
                vm: Vm { out: written(ph.vm.out, run), ..run.vm },
                cursors: ph.cursors,
                failed: run.failed,
            },
        )
    }
}

/// The state in which a batch begins.
pub open spec fn phase_of(vm: Vm) -> Phase {
    Phase { vm, cursors: Seq::empty(), failed: None }
}

/// Beginning rules touches nothing of a node but its properties.
pub proof fn lemma_open_keeps_tree(rules: Seq<RuleV>, sel: Seq<int>, k: int, ph: Phase)
    ensures
        open_from(rules, sel, k, ph).vm.node == (NodeV {
            props: open_from(rules, sel, k, ph).vm.node.props,
            ..ph.vm.node
        }),
    decreases sel.len() - k,
{
    if 0 <= k < sel.len() && ph.failed is None {
        let rule = rules[sel[k]];
        let start = Vm { out: Seq::empty(), ..ph.vm };
        lemma_run_keeps_tree(rule.instructions, 0, start, rule.settings);
        let run = run_from(rule.instructions, 0, start, rule.settings);
        lemma_open_keeps_tree(
            rules,
            sel,
            k + 1,
            Phase {
                vm: Vm { out: written(ph.vm.out, run), ..run.vm },
                cursors: ph.cursors.push(run.pc),
                failed: run.failed,
            },
        );
    }
}

/// Whether two nodes are the same but for what is below them: their
/// children and their pointer.
pub open spec fn same_above(a: NodeV, b: NodeV) -> bool {
    b == (NodeV { children: b.children, pointer: b.pointer, ..a })
}

/// Whether two states are the same but for what is below their nodes.
pub open spec fn same_but_below(a: Vm, b: Vm) -> bool {
    &&& a.ctx == b.ctx
    &&& a.deps == b.deps
    &&& a.out == b.out
    &&& same_above(a.node, b.node)
}

/// Whether none of the instructions asks for a command. An `EXEC` is the
/// one instruction that reads what is below a node: it feeds the values
/// of the children to the command.
pub open spec fn without_exec(instrs: Seq<InstrV>) -> bool {
    forall|i: int| 0 <= i < instrs.len() ==> !(decoded(#[trigger] instrs[i]) is Exec)
}

/// Whether none of the rules asks for a command.
pub open spec fn rules_without_exec(rules: Seq<RuleV>) -> bool {
    forall|k: int| 0 <= k < rules.len() ==> without_exec((#[trigger] rules[k]).instructions)
}

/// An instruction other than `EXEC` does the same to two states that
/// differ only below their nodes.
pub proof fn lemma_step_above(inst: InstrV, a: Vm, b: Vm, set: LangSettings)
    requires
        same_but_below(a, b),
        !(decoded(inst) is Exec),
    ensures
        match step(inst, a, set) {
            Step::Next(x) => step(inst, b, set) matches Step::Next(y) && same_but_below(x, y),
            Step::Yield => step(inst, b, set) is Yield,
            Step::Invalid => step(inst, b, set) is Invalid,
        },
{
    assert(env_of(a.node, a.ctx, set) == env_of(b.node, b.ctx, set));
}

/// A run without `EXEC` does the same to two states that differ only
/// below their nodes.
pub proof fn lemma_run_above(instrs: Seq<InstrV>, pc: int, a: Vm, b: Vm, set: LangSettings)
    requires
        same_but_below(a, b),
        without_exec(instrs),
    ensures
        run_from(instrs, pc, a, set).pc == run_from(instrs, pc, b, set).pc,
        run_from(instrs, pc, a, set).failed == run_from(instrs, pc, b, set).failed,
        same_but_below(run_from(instrs, pc, a, set).vm, run_from(instrs, pc, b, set).vm),
    decreases instrs.len() - pc,
{
    if 0 <= pc < instrs.len() {
        lemma_step_above(instrs[pc], a, b, set);
        match (step(instrs[pc], a, set), step(instrs[pc], b, set)) {
            (Step::Next(x), Step::Next(y)) => {
                lemma_run_above(instrs, pc + 1, x, y, set);
            },
            _ => {},
        }
    }
}

/// Whether two batches stand at the same place but for what is below
/// their nodes.
pub open spec fn same_phase(a: Phase, b: Phase) -> bool {
    &&& same_but_below(a.vm, b.vm)
    &&& a.cursors == b.cursors
    &&& a.failed == b.failed
}

/// Rules without `EXEC` begin the same on two states that differ only
/// below their nodes.
pub proof fn lemma_open_above(rules: Seq<RuleV>, sel: Seq<int>, k: int, a: Phase, b: Phase)
    requires
        same_phase(a, b),
        rules_without_exec(rules),
        forall|j: int| 0 <= j < sel.len() ==> 0 <= #[trigger] sel[j] < rules.len(),
    ensures
        same_phase(open_from(rules, sel, k, a), open_from(rules, sel, k, b)),
    decreases sel.len() - k,
{
    if 0 <= k < sel.len() && a.failed is None {
        let rule = rules[sel[k]];
        let va = Vm { out: Seq::empty(), ..a.vm };
        let vb = Vm { out: Seq::empty(), ..b.vm };
        lemma_run_above(rule.instructions, 0, va, vb, rule.settings);
        let ra = run_from(rule.instructions, 0, va, rule.settings);
        let rb = run_from(rule.instructions, 0, vb, rule.settings);
        lemma_open_above(
            rules,
            sel,
            k + 1,
            Phase {
                vm: Vm { out: written(a.vm.out, ra), ..ra.vm },
                cursors: a.cursors.push(ra.pc),
                failed: ra.failed,
            },
            Phase {
                vm: Vm { out: written(b.vm.out, rb), ..rb.vm },
                cursors: b.cursors.push(rb.pc),
                failed: rb.failed,
            },
        );
    }
}

/// Rules without `EXEC` end the same on two states that differ only
/// below their nodes.
pub proof fn lemma_close_above(
    rules: Seq<RuleV>,
    sel: Seq<int>,
    cursors: Seq<int>,
    k: int,
    a: Phase,
    b: Phase,
)
    requires
        same_phase(a, b),
        rules_without_exec(rules),
        forall|j: int| 0 <= j < sel.len() ==> 0 <= #[trigger] sel[j] < rules.len(),
    ensures
        same_phase(close_from(rules, sel, cursors, k, a), close_from(rules, sel, cursors, k, b)),
    decreases k,
{
    if 0 < k <= sel.len() && k <= cursors.len() && a.failed is None {
        let rule = rules[sel[k - 1]];
        let va = Vm { out: Seq::empty(), ..a.vm };
        let vb = Vm { out: Seq::empty(), ..b.vm };
        lemma_run_above(rule.instructions, cursors[k - 1], va, vb, rule.settings);
        let ra = run_from(rule.instructions, cursors[k - 1], va, rule.settings);
        let rb = run_from(rule.instructions, cursors[k - 1], vb, rule.settings);
        lemma_close_above(
            rules,
            sel,
            cursors,
            k - 1,
            Phase {
                vm: Vm { out: written(a.vm.out, ra), ..ra.vm },
                cursors: a.cursors,
                failed: ra.failed,
            },
            Phase {
                vm: Vm { out: written(b.vm.out, rb), ..rb.vm },
                cursors: b.cursors,
                failed: rb.failed,
            },
        );
    }
}

/// The settings of a batch of selected rules: those of its rules merged
/// in order; no settings for an empty batch.
pub open spec fn batch_from(rules: Seq<RuleV>, sel: Seq<int>, k: int, acc: LangSettings) -> LangSettings
    decreases sel.len() - k,
{
    if k < 0 || k >= sel.len() {
        acc
    } else {
        batch_from(rules, sel, k + 1, acc.merged(rules[sel[k]].settings))
    }
}

/// The settings of a batch of selected rules.
pub open spec fn batch_settings(rules: Seq<RuleV>, sel: Seq<int>) -> LangSettings {
    batch_from(rules, sel, 0, LangSettings::none())
}

/// The settings of a batch of selected rules.
pub fn merge_settings(rules: &Vec<LangRule>, sel: &Vec<usize>) -> (r: LangSettings)
    requires
        forall|k: int| 0 <= k < sel.len() ==> sel[k] < rules.len(),
    ensures
        r == batch_settings(rules_view(rules@), sel@.map_values(|i: usize| i as int)),
{
    let mut acc = LangSettings::default();
    let mut k: usize = 0;
    let ghost ints = sel@.map_values(|i: usize| i as int);
    while k < sel.len()
        invariant
            k <= sel.len(),
            ints == sel@.map_values(|i: usize| i as int),
            forall|j: int| 0 <= j < sel.len() ==> sel[j] < rules.len(),
            batch_from(rules_view(rules@), ints, k as int, acc) == batch_settings(
                rules_view(rules@),
                ints,
            ),
        decreases sel.len() - k,
    {
        assert(rules_view(rules@)[sel[k as int] as int] == rules[sel[k as int] as int]@);
        acc.merge(&rules[sel[k]].settings);
        k += 1;
    }
    acc
}

/// A set of rules for one output format.
#[derive(Debug, Clone)]
pub struct Lang {
    pub name: String,
    pub media_type: String,
    pub preprocess_rules: Vec<LangRule>,
    pub compile_rules: Vec<LangRule>,
}

/// Model of a [`Lang`].
pub struct LangV {
    pub name: Seq<char>,
    pub media_type: Seq<char>,
    pub preprocess_rules: Seq<RuleV>,
    pub compile_rules: Seq<RuleV>,
}

impl View for Lang {
    type V = LangV;

    open spec fn view(&self) -> LangV {
        LangV {
            name: self.name@,
            media_type: self.media_type@,
            preprocess_rules: rules_view(self.preprocess_rules@),
            compile_rules: rules_view(self.compile_rules@),
        }
    }
}

impl LangV {
    /// The rules of the stage `stage`, which is `COMPILE` or `PREPROCESS`.
    pub open spec fn stage_rules(self, stage: Seq<char>) -> Seq<RuleV> {
        if stage == "COMPILE"@ {
            self.compile_rules
        } else {
            self.preprocess_rules
        }
    }
}

/// Whether `stage` names one of the two stages.
pub open spec fn is_stage(stage: Seq<char>) -> bool {
    stage == "COMPILE"@ || stage == "PREPROCESS"@
}

/// The language that a rule file describes.
pub open spec fn lang_of(input: Seq<char>) -> Result<LangV, LibErrorV> {
    match crate::compiler::rule_parser::parsed(input) {
        Ok(d) => Ok(
            LangV {
                name: d.name,
                media_type: d.media_type,
                preprocess_rules: d.preprocess,
                compile_rules: d.compile,
            },
        ),
        Err(e) => Err(e),
    }
}

impl Lang {
    /// Reads a language from the text of a rule file.
    pub fn new(input: &str) -> (r: Result<Lang, LibError>)
        ensures
            match r {
                Ok(l) => lang_of(input@) == Ok::<LangV, LibErrorV>(l@),
                Err(e) => lang_of(input@) == Err::<LangV, LibErrorV>(e@),
            },
    {
        match crate::compiler::rule_parser::parse(input) {
            Ok(d) => Ok(
                Lang {
                    name: d.name,
                    media_type: d.media_type,
                    preprocess_rules: d.preprocess,
                    compile_rules: d.compile,
                },
            ),
            Err(e) => Err(e),
        }
    }

    /// The rules of the stage `stage`.
    pub fn stage_rules(&self, stage: &str) -> (r: &Vec<LangRule>)
        requires
            is_stage(stage@),
        ensures
            rules_view(r@) == self@.stage_rules(stage@),
    {
        if str_eq(stage, "COMPILE") {
            &self.compile_rules
        } else {
            &self.preprocess_rules
        }
    }

    /// The rules of a stage that apply to an AST path: the matching rules
    /// in the order of the rule file, up to and including the first that is
    /// not composable. Given as indices into the stage's rules.
    pub fn get_rules(&self, stage: &str, path: &str) -> (r: Vec<usize>)
        requires
            is_stage(stage@),
        ensures
            r@.map_values(|i: usize| i as int) == selected(self@.stage_rules(stage@), path@),
            forall|k: int| 0 <= k < r.len() ==> r[k] < self@.stage_rules(stage@).len(),
    {
        let rules = self.stage_rules(stage);
        let r = select(rules, path);
        assert(rules_view(rules@).len() == rules@.len());
        r
    }

    /// Begins the selected rules on a node, in order, and returns the
    /// cursor at which each of them is to go on after the children. What
    /// the rules write is added to `out`.
    pub fn open_rules(
        &self,
        rules: &Vec<LangRule>,
        sel: &Vec<usize>,
        ctx: &mut Context,
        deps: &mut Vec<Dependency>,
        node: &mut Node,
        out: &mut String,
    ) -> (r: Result<Vec<usize>, LibError>)
        requires
            old(ctx).wf(),
            forall|k: int| 0 <= k < sel.len() ==> sel[k] < rules.len(),
        ensures
            final(ctx).wf(),
            ({
                let ph = open_from(
                    rules_view(rules@),
                    sel@.map_values(|i: usize| i as int),
                    0,
                    phase_of(
                        Vm {
                            ctx: old(ctx)@,
                            node: old(node)@,
                            deps: deps_view(old(deps)@),
                            out: old(out)@,
                        },
                    ),
                );
                &&& final(ctx)@ == ph.vm.ctx
                &&& final(node)@ == ph.vm.node
                &&& deps_view(final(deps)@) == ph.vm.deps
                &&& final(out)@ == ph.vm.out
                &&& match r {
                    Ok(cursors) => {
                        &&& ph.failed is None
                        &&& cursors@.map_values(|i: usize| i as int) == ph.cursors
                        &&& cursors.len() == sel.len()
                        &&& forall|k: int|
                            0 <= k < sel.len() ==> cursors[k]
                                <= rules[sel[k] as int].instructions.len()
                    },
                    Err(e) => ph.failed is Some && e@ == LibErrorV::InvalidRule(ph.failed->Some_0),
                }
            }),
    {
        let ghost all = rules_view(rules@);
        let ghost ints = sel@.map_values(|i: usize| i as int);
        let ghost goal = open_from(
            all,
            ints,
            0,
            phase_of(
                Vm { ctx: old(ctx)@, node: old(node)@, deps: deps_view(old(deps)@), out: old(out)@ },
            ),
        );
        let mut cursors: Vec<usize> = Vec::new();
        let mut k: usize = 0;
        assert(cursors@.map_values(|i: usize| i as int) =~= Seq::<int>::empty());
        while k < sel.len()
            invariant
                k <= sel.len(),
                ctx.wf(),
                all == rules_view(rules@),
                ints == sel@.map_values(|i: usize| i as int),
                forall|j: int| 0 <= j < sel.len() ==> sel[j] < rules.len(),
                cursors.len() == k,
                forall|j: int|
                    0 <= j < k ==> cursors[j] <= rules[sel[j] as int].instructions.len(),
                goal == open_from(
                    all,
                    ints,
                    0,
                    phase_of(
                        Vm {
                            ctx: old(ctx)@,
                            node: old(node)@,
                            deps: deps_view(old(deps)@),
                            out: old(out)@,
                        },
                    ),
                ),
                goal == open_from(
                    all,
                    ints,
                    k as int,
                    Phase {
                        vm: Vm { ctx: ctx@, node: node@, deps: deps_view(deps@), out: out@ },
                        cursors: cursors@.map_values(|i: usize| i as int),
                        failed: None,
                    },
                ),
            decreases sel.len() - k,
        {
            let rule = &rules[sel[k]];
            assert(all[ints[k as int]] == rule@);
            let ghost before = cursors@.map_values(|i: usize| i as int);
            let ghost vm0 = Vm { ctx: ctx@, node: node@, deps: deps_view(deps@), out: out@ };
            let mut pc: usize = 0;
            match self.evaluate(&rule.instructions, &mut pc, ctx, deps, node, &rule.settings) {
                Ok(text) => {
                    out.append(text.as_str());
                    cursors.push(pc);
                    assert(cursors@.map_values(|i: usize| i as int) =~= before.push(pc as int));
                },
                Err(e) => {
                    proof {
                        let ph = Phase { vm: vm0, cursors: before, failed: None };
                        let run = run_from(
                            rule@.instructions,
                            0,
                            Vm { out: Seq::empty(), ..vm0 },
                            rule.settings,
                        );
                        let next = Phase {
                            vm: Vm { out: written(vm0.out, run), ..run.vm },
                            cursors: before.push(run.pc),
                            failed: run.failed,
                        };
                        assert(open_from(all, ints, k as int, ph) == open_from(
                            all,
                            ints,
                            k + 1,
                            next,
                        ));
                        assert(open_from(all, ints, k + 1, next) == next);
                    }
                    return Err(e);
                },
            }
            k += 1;
        }
        Ok(cursors)
    }

    /// Ends the selected rules on a node, last first, each from its cursor
    /// on. What the rules write is added to `out`.
    pub fn close_rules(
        &self,
        rules: &Vec<LangRule>,
        sel: &Vec<usize>,
        cursors: &Vec<usize>,
        ctx: &mut Context,
        deps: &mut Vec<Dependency>,
        node: &mut Node,
        out: &mut String,
    ) -> (r: Result<(), LibError>)
        requires
            old(ctx).wf(),
            cursors.len() == sel.len(),
            forall|k: int| 0 <= k < sel.len() ==> sel[k] < rules.len(),
            forall|k: int|
                0 <= k < sel.len() ==> cursors[k] <= rules[sel[k] as int].instructions.len(),
        ensures
            final(ctx).wf(),
            ({
                let ph = close_from(
                    rules_view(rules@),
                    sel@.map_values(|i: usize| i as int),
                    cursors@.map_values(|i: usize| i as int),
                    sel.len() as int,
                    phase_of(
                        Vm {
                            ctx: old(ctx)@,
                            node: old(node)@,
                            deps: deps_view(old(deps)@),
                            out: old(out)@,
                        },
                    ),
                );
                &&& final(ctx)@ == ph.vm.ctx
                &&& final(node)@ == ph.vm.node
                &&& deps_view(final(deps)@) == ph.vm.deps
                &&& final(out)@ == ph.vm.out
                &&& match r {
                    Ok(_) => ph.failed is None,
                    Err(e) => ph.failed is Some && e@ == LibErrorV::InvalidRule(ph.failed->Some_0),
                }
            }),
    {
        let ghost all = rules_view(rules@);
        let ghost ints = sel@.map_values(|i: usize| i as int);
        let ghost curs = cursors@.map_values(|i: usize| i as int);
        let ghost goal = close_from(
            all,
            ints,
            curs,
            sel.len() as int,
            phase_of(
                Vm { ctx: old(ctx)@, node: old(node)@, deps: deps_view(old(deps)@), out: old(out)@ },
            ),
        );
        let mut k: usize = sel.len();
        while k > 0
            invariant
                k <= sel.len(),
                ctx.wf(),
                cursors.len() == sel.len(),
                all == rules_view(rules@),
                ints == sel@.map_values(|i: usize| i as int),
                curs == cursors@.map_values(|i: usize| i as int),
                forall|j: int| 0 <= j < sel.len() ==> sel[j] < rules.len(),
                forall|j: int|
                    0 <= j < sel.len() ==> cursors[j] <= rules[sel[j] as int].instructions.len(),
                goal == close_from(
                    all,
                    ints,
                    curs,
                    sel.len() as int,
                    phase_of(
                        Vm {
                            ctx: old(ctx)@,
                            node: old(node)@,
                            deps: deps_view(old(deps)@),
                            out: old(out)@,
                        },
                    ),
                ),
                goal == close_from(
                    all,
                    ints,
                    curs,
                    k as int,
                    phase_of(Vm { ctx: ctx@, node: node@, deps: deps_view(deps@), out: out@ }),
                ),
            decreases k,
        {
            let rule = &rules[sel[k - 1]];
            assert(all[ints[k - 1]] == rule@);
            assert(curs[k - 1] == cursors[k - 1] as int);
            let mut pc: usize = cursors[k - 1];
            let ghost vm0 = Vm { ctx: ctx@, node: node@, deps: deps_view(deps@), out: out@ };
            match self.evaluate(&rule.instructions, &mut pc, ctx, deps, node, &rule.settings) {
                Ok(text) => {
                    out.append(text.as_str());
                },
                Err(e) => {
                    proof {
                        let run = run_from(
                            rule@.instructions,
                            curs[k - 1],
                            Vm { out: Seq::empty(), ..vm0 },
                            rule.settings,
                        );
                        let next = Phase {
                            vm: Vm { out: written(vm0.out, run), ..run.vm },
                            cursors: Seq::empty(),
                            failed: run.failed,
                        };
                        assert(close_from(all, ints, curs, k as int, phase_of(vm0)) == close_from(
                            all,
                            ints,
                            curs,
                            k - 1,
                            next,
                        ));
                        assert(close_from(all, ints, curs, k - 1, next) == next);
                    }
                    return Err(e);
                },
            }
            k -= 1;
        }
        Ok(())
    }

    /// The instructions and settings of the first rule of a stage that
    /// matches an AST path; no instructions and no settings where none does.
    pub fn get_instructions(&self, stage: &str, path: &str) -> (r: (Vec<LangInstr>, LangSettings))
        requires
            is_stage(stage@),
        ensures
            ({
                let rules = self@.stage_rules(stage@);
                let hits = selected(rules, path@);
                if hits.len() > 0 {
                    instrs_view(r.0@) == rules[hits[0]].instructions && r.1
                        == rules[hits[0]].settings
                } else {
                    r.0@.len() == 0 && r.1 == LangSettings::none()
                }
            }),
    {
        let rules = self.stage_rules(stage);
        let hits = select(rules, path);
        if hits.len() > 0 {
            let rule = &rules[hits[0]];
            let ghost all = rules_view(rules@);
            proof {
                let ints = hits@.map_values(|i: usize| i as int);
                assert(ints[0] == hits[0] as int);
                assert(all[hits[0] as int] == rule@);
            }
            let mut out: Vec<LangInstr> = Vec::new();
            let mut i: usize = 0;
            while i < rule.instructions.len()
                invariant
                    i <= rule.instructions.len(),
                    instrs_view(out@) == instrs_view(rule.instructions@).take(i as int),
                decreases rule.instructions.len() - i,
            {
                let ghost before = instrs_view(out@);
                out.push(rule.instructions[i].duplicate());
                assert(instrs_view(out@) =~= before.push(rule.instructions[i as int]@));
                assert(instrs_view(rule.instructions@).take(i + 1) =~= instrs_view(
                    rule.instructions@,
                ).take(i as int).push(rule.instructions[i as int]@));
                i += 1;
            }
            assert(instrs_view(rule.instructions@).take(rule.instructions.len() as int)
                =~= instrs_view(rule.instructions@));
            (out, rule.settings)
        } else {
            (Vec::new(), LangSettings::default())
        }
    }

    /// Runs `instructions` from `*pc` on, up to and including the next
    /// `YIELD`, and returns what they wrote. An instruction that fits no
    /// line of the instruction set ends the run with `InvalidRule` and its
    /// text; what ran before it stays done.
    pub fn evaluate(
        &self,
        instructions: &Vec<LangInstr>,
        pc: &mut usize,
        ctx: &mut Context,
        deps: &mut Vec<Dependency>,
        node: &mut Node,
        set: &LangSettings,
    ) -> (r: Result<String, LibError>)
        requires
            old(ctx).wf(),
            *old(pc) <= instructions.len(),
        ensures
            final(ctx).wf(),
            *final(pc) <= instructions.len(),
            ({
                let run = run_from(
                    instrs_view(instructions@),
                    *old(pc) as int,
                    Vm {
                        ctx: old(ctx)@,
                        node: old(node)@,
                        deps: deps_view(old(deps)@),
                        out: Seq::empty(),
                    },
                    *set,
                );
                &&& final(ctx)@ == run.vm.ctx
                &&& final(node)@ == run.vm.node
                &&& deps_view(final(deps)@) == run.vm.deps
                &&& *final(pc) == run.pc
                &&& match r {
                    Ok(text) => run.failed is None && text@ == run.vm.out,
                    Err(e) => run.failed is Some && e@ == LibErrorV::InvalidRule(run.failed->Some_0),
                }
            }),
    {
        let mut out = String::new();
        let ghost instrs = instrs_view(instructions@);
        let ghost goal = run_from(
            instrs,
            *old(pc) as int,
            Vm { ctx: old(ctx)@, node: old(node)@, deps: deps_view(old(deps)@), out: Seq::empty() },
            *set,
        );
        while *pc < instructions.len()
            invariant
                ctx.wf(),
                *pc <= instructions.len(),
                instrs == instrs_view(instructions@),
                goal == run_from(
                    instrs,
                    *old(pc) as int,
                    Vm {
                        ctx: old(ctx)@,
                        node: old(node)@,
                        deps: deps_view(old(deps)@),
                        out: Seq::empty(),
                    },
                    *set,
                ),
                run_from(
                    instrs,
                    *pc as int,
                    Vm { ctx: ctx@, node: node@, deps: deps_view(deps@), out: out@ },
                    *set,
                ) == goal,
            decreases instructions.len() - *pc,
        {
            let inst = &instructions[*pc];
            let ghost at = *pc as int;
            let ghost before = Vm { ctx: ctx@, node: node@, deps: deps_view(deps@), out: out@ };
            assert(instrs[at] == inst@);
            *pc = *pc + 1;
            match exec_step(inst, ctx, deps, node, &mut out, set) {
                Outcome::Next => {},
                Outcome::Yield => {
                    assert(run_from(instrs, at, before, *set) == Run {
                        vm: before,
                        pc: at + 1,
                        failed: None,
                    });
                    return Ok(out);
                },
                Outcome::Invalid => {
                    assert(run_from(instrs, at, before, *set) == Run {
                        vm: before,
                        pc: at + 1,
                        failed: Some(inst@.text()),
                    });
                    return Err(LibError::InvalidRule(inst.to_text()));
                },
            }
        }
        Ok(out)
    }
}

} // verus!
