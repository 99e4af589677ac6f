//! Rules: path patterns with settings and instructions.
use crate::compiler::rule_argument::{args_view, Arg, ArgV};
use crate::strmap::{lemma_position, position, StrMap};
use crate::text::{copy_str, join};
use vstd::prelude::*;

verus! {

#[verifier::external_type_specification]
#[verifier::external_body]
pub struct ExRegexError(regex::Error);

/// One instruction of a rule.
#[derive(Debug, Eq, PartialEq, Clone)]
pub struct LangInstr {
    pub op: String,
    pub args: Vec<Arg>,
}

/// Model of a [`LangInstr`].
pub struct InstrV {
    pub op: Seq<char>,
    pub args: Seq<ArgV>,
}

impl View for LangInstr {
    type V = InstrV;

    open spec fn view(&self) -> InstrV {
        InstrV { op: self.op@, args: args_view(self.args@) }
    }
}

impl InstrV {
    /// The instruction as it is written in a rule file: the opcode, then
    /// the arguments, all separated by single spaces.
    pub open spec fn text(self) -> Seq<char> {
        if self.args.len() == 0 {
            self.op
        } else {
            self.op + " "@ + join(self.args.map_values(|a: ArgV| a.text()), " "@)
        }
    }
}

impl LangInstr {
    /// The instruction as it is written in a rule file.
    pub fn to_text(&self) -> (r: String)
        ensures
            r@ == self@.text(),
    {
        let mut r = copy_str(self.op.as_str());
        if self.args.len() == 0 {
            return r;
        }
        let mut texts: Vec<String> = Vec::new();
        let mut i: usize = 0;
        while i < self.args.len()
            invariant
                i <= self.args.len(),
                texts.deep_view() == self@.args.map_values(|a: ArgV| a.text()).take(i as int),
            decreases self.args.len() - i,
        {
            let ghost before = texts.deep_view();
            let ghost all = self@.args.map_values(|a: ArgV| a.text());
            texts.push(self.args[i].to_text());
            assert(texts.deep_view() =~= before.push(self.args[i as int]@.text()));
            assert(all.take(i + 1) =~= all.take(i as int).push(self.args[i as int]@.text()));
            i += 1;
        }
        assert(self@.args.map_values(|a: ArgV| a.text()).take(self.args.len() as int)
            =~= self@.args.map_values(|a: ArgV| a.text()));
        let joined = crate::text::join_all(&texts, " ");
        vstd::string::StringExecFns::append(&mut r, " ");
        vstd::string::StringExecFns::append(&mut r, joined.as_str());
        r
    }

    pub fn duplicate(&self) -> (r: LangInstr)
        ensures
            r@ == self@,
    {
        let mut args: Vec<Arg> = Vec::new();
        let mut i: usize = 0;
        while i < self.args.len()
            invariant
                i <= self.args.len(),
                args_view(args@) == args_view(self.args@).take(i as int),
            decreases self.args.len() - i,
        {
            let ghost before = args_view(args@);
            args.push(self.args[i].duplicate());
            assert(args_view(args@) =~= before.push(self.args[i as int]@));
            assert(args_view(self.args@).take(i + 1) =~= args_view(self.args@).take(
                i as int,
            ).push(self.args[i as int]@));
            i += 1;
        }
        assert(args_view(self.args@).take(self.args.len() as int) =~= args_view(self.args@));
        LangInstr { op: copy_str(self.op.as_str()), args }
    }
}

/// A rule: a path pattern, the regular expression made from it, settings
/// and instructions.
#[derive(Debug, Clone)]
pub struct LangRule {
    pub path: String,
    pub regex: String,
    pub instructions: Vec<LangInstr>,
    pub settings: LangSettings,
}

/// Model of a [`LangRule`].
pub struct RuleV {
    pub path: Seq<char>,
    pub regex: Seq<char>,
    pub instructions: Seq<InstrV>,
    pub settings: LangSettings,
}

impl View for LangRule {
    type V = RuleV;

    open spec fn view(&self) -> RuleV {
        RuleV {
            path: self.path@,
            regex: self.regex@,
            instructions: instrs_view(self.instructions@),
            settings: self.settings,
        }
    }
}

impl LangRule {
    /// Whether the rule's pattern matches somewhere in `path`.
    pub fn matches(&self, path: &str) -> (r: bool)
        ensures
            r == pattern_matches(self.regex@, path@),
    {
        match regex_search(self.regex.as_str(), path) {
            Ok(found) => found,
            Err(_) => false,
        }
    }
}

/// The models of a list of rules.
pub open spec fn rules_view(s: Seq<LangRule>) -> Seq<RuleV> {
    s.map_values(|r: LangRule| r@)
}

/// The models of a list of instructions.
pub open spec fn instrs_view(s: Seq<LangInstr>) -> Seq<InstrV> {
    s.map_values(|i: LangInstr| i@)
}

/// Whether `pattern` is a regular expression that the `regex` crate accepts.
pub uninterp spec fn regex_valid(pattern: Seq<char>) -> bool;

/// Whether the valid regular expression `pattern` matches somewhere in `text`.
pub uninterp spec fn regex_accepts(pattern: Seq<char>, text: Seq<char>) -> bool;

/// Whether `pattern` is valid and matches somewhere in `text`.
pub open spec fn pattern_matches(pattern: Seq<char>, text: Seq<char>) -> bool {
    regex_valid(pattern) && regex_accepts(pattern, text)
}

/// Compiles `pattern` with `regex::Regex::new` and searches `text` with
/// `Regex::is_match`. The result is an error exactly when the crate does
/// not accept the pattern; otherwise it tells whether the pattern matches
/// anywhere in `text`.
#[verifier::external_body]
pub(crate) fn regex_search(pattern: &str, text: &str) -> (r: Result<bool, regex::Error>)
    ensures
        r is Ok <==> regex_valid(pattern@),
        r is Ok ==> r->Ok_0 == regex_accepts(pattern@, text@),
{
    match regex::Regex::new(pattern) {
        Ok(re) => Ok(re.is_match(text)),
        Err(e) => Err(e),
    }
}

/// The message of a `regex::Error`, by its `Display`.
#[verifier::external_body]
pub(crate) fn regex_error_text(e: &regex::Error) -> (r: String) {
    e.to_string()
}

/// What a rule says of itself beyond its instructions.
#[derive(Debug, Copy, Clone, PartialEq)]
pub struct LangSettings {
    pub is_composable: bool,
    pub is_paragraphable: bool,
    pub is_unescaped_value: bool,
    pub default_src: Option<&'static str>,
    pub default_ref: Option<&'static str>,
}

impl LangSettings {
    /// No flag set and no default scheme.
    pub open spec fn none() -> LangSettings {
        LangSettings {
            is_composable: false,
            is_paragraphable: false,
            is_unescaped_value: false,
            default_src: None,
            default_ref: None,
        }
    }

    /// The settings of a batch of rules: a flag is set where either has it,
    /// a default scheme is the first that was given.
    pub open spec fn merged(self, other: LangSettings) -> LangSettings {
        LangSettings {
            is_composable: self.is_composable || other.is_composable,
            is_paragraphable: self.is_paragraphable || other.is_paragraphable,
            is_unescaped_value: self.is_unescaped_value || other.is_unescaped_value,
            default_src: if self.default_src is Some {
                self.default_src
            } else {
                other.default_src
            },
            default_ref: if self.default_ref is Some {
                self.default_ref
            } else {
                other.default_ref
            },
        }
    }

    /// Takes up the settings of another rule of the same batch.
    pub fn merge(&mut self, other: &LangSettings)
        ensures
            *final(self) == old(self).merged(*other),
    {
        self.is_composable = self.is_composable || other.is_composable;
        self.is_paragraphable = self.is_paragraphable || other.is_paragraphable;
        self.is_unescaped_value = self.is_unescaped_value || other.is_unescaped_value;
        if self.default_src.is_none() {
            self.default_src = other.default_src;
        }
        if self.default_ref.is_none() {
            self.default_ref = other.default_ref;
        }
    }
}

impl Default for LangSettings {
    fn default() -> (r: Self)
        ensures
            r == LangSettings::none(),
    {
        LangSettings {
            is_composable: false,
            is_paragraphable: false,
            is_unescaped_value: false,
            default_src: None,
            default_ref: None,
        }
    }
}

/// The variables of the rule interpreter: named stacks of text, the node
/// at hand, named by its path, and its position among its siblings.
#[derive(Debug)]
pub struct Context {
    pub stacks: StrMap<Vec<String>>,
    /// The path of the node that the rules are at work on.
    pub parent: Option<String>,
    pub index: usize,
}

/// Model of a [`Context`].
pub struct CtxV {
    pub names: Seq<Seq<char>>,
    pub frames: Seq<Seq<Seq<char>>>,
    pub parent: Option<Seq<char>>,
    pub index: usize,
}

impl View for Context {
    type V = CtxV;

    open spec fn view(&self) -> CtxV {
        CtxV {
            names: self.stacks.keys.deep_view(),
            frames: self.stacks.vals.deep_view(),
            parent: self.parent.deep_view(),
            index: self.index,
        }
    }
}

impl CtxV {
    /// No stacks, first sibling.
    pub open spec fn empty() -> CtxV {
        CtxV { names: Seq::empty(), frames: Seq::empty(), parent: None, index: 0 }
    }

    /// Every stack has its name and no name stands twice.
    pub open spec fn wf(self) -> bool {
        self.names.len() == self.frames.len() && self.names.no_duplicates()
    }

    /// The frames of the stack `name`, bottom first.
    pub open spec fn stack(self, name: Seq<char>) -> Option<Seq<Seq<char>>> {
        match position(self.names, name) {
            Some(i) => Some(self.frames[i]),
            None => None,
        }
    }

    /// The top frame of the stack `name`.
    pub open spec fn top(self, name: Seq<char>) -> Option<Seq<char>> {
        match self.stack(name) {
            Some(f) => if f.len() > 0 {
                Some(f.last())
            } else {
                None
            },
            None => None,
        }
    }

    /// The stack `name` holds exactly `frames`; a new stack comes last.
    pub open spec fn put(self, name: Seq<char>, frames: Seq<Seq<char>>) -> CtxV {
        match position(self.names, name) {
            Some(i) => CtxV { frames: self.frames.update(i, frames), ..self },
            None => CtxV {
                names: self.names.push(name),
                frames: self.frames.push(frames),
                ..self
            },
        }
    }

    /// Without the stack `name`.
    pub open spec fn without(self, name: Seq<char>) -> CtxV {
        match position(self.names, name) {
            Some(i) => CtxV { names: self.names.remove(i), frames: self.frames.remove(i), ..self },
            None => self,
        }
    }

    /// `value` on top of the stack `name`, which is made where it is missing.
    pub open spec fn pushed(self, name: Seq<char>, value: Seq<char>) -> CtxV {
        match self.stack(name) {
            Some(f) => self.put(name, f.push(value)),
            None => self.put(name, seq![value]),
        }
    }

    /// Without the top frame of the stack `name`, if there is one.
    pub open spec fn popped(self, name: Seq<char>) -> CtxV {
        match self.stack(name) {
            Some(f) => if f.len() > 0 {
                self.put(name, f.drop_last())
            } else {
                self
            },
            None => self,
        }
    }

    /// The stack `name` emptied, if it is there.
    pub open spec fn drained(self, name: Seq<char>) -> CtxV {
        match self.stack(name) {
            Some(f) => self.put(name, Seq::empty()),
            None => self,
        }
    }

    /// `value` in place of the top frame of the stack `name`; on top where
    /// the stack is empty or missing.
    pub open spec fn with_top(self, name: Seq<char>, value: Seq<char>) -> CtxV {
        self.popped(name).pushed(name, value)
    }

    /// The contents of `source` move to `target`, and what `target` held
    /// moves to `source`; a `target` that held nothing leaves `source`
    /// removed, and a missing `source` changes nothing.
    pub open spec fn swapped(self, target: Seq<char>, source: Seq<char>) -> CtxV {
        match self.stack(source) {
            Some(moved) => {
                let rest = self.without(source);
                match rest.stack(target) {
                    Some(back) => rest.put(target, moved).put(source, back),
                    None => rest.put(target, moved),
                }
            },
            None => self,
        }
    }
}

impl Context {
    /// The frames of the stack `name`.
    pub fn stack(&self, name: &str) -> (r: Option<&Vec<String>>)
        requires
            self.wf(),
        ensures
            r.deep_view() == self@.stack(name@),
    {
        match self.stacks.find(name) {
            Some(i) => Some(&self.stacks.vals[i]),
            None => None,
        }
    }

    /// The top frame of the stack `name`.
    pub fn top(&self, name: &str) -> (r: Option<&String>)
        requires
            self.wf(),
        ensures
            r.deep_view() == self@.top(name@),
    {
        match self.stacks.find(name) {
            Some(i) => {
                let f = &self.stacks.vals[i];
                if f.len() > 0 {
                    Some(&f[f.len() - 1])
                } else {
                    None
                }
            },
            None => None,
        }
    }

    /// Makes the stack `name` hold exactly `frames`, and hands back what it held.
    pub fn put(&mut self, name: &str, frames: Vec<String>) -> (r: Option<Vec<String>>)
        requires
            old(self).wf(),
        ensures
            final(self).wf(),
            final(self)@ == old(self)@.put(name@, frames.deep_view()),
            r.deep_view() == old(self)@.stack(name@),
    {
        let ghost before = self.stacks.vals.deep_view();
        let ghost found = self.stacks.index_of(name@);
        proof {
            lemma_position(self.stacks.keys.deep_view(), name@);
        }
        let r = self.stacks.insert(copy_str(name), frames);
        proof {
            match found {
                Some(i) => {
                    assert(self.stacks.vals.deep_view() =~= before.update(i, frames.deep_view()));
                },
                None => {
                    assert(self.stacks.vals.deep_view() =~= before.push(frames.deep_view()));
                },
            }
        }
        r
    }

    /// Takes the stack `name` out and hands back its frames.
    pub fn take_stack(&mut self, name: &str) -> (r: Option<Vec<String>>)
        requires
            old(self).wf(),
        ensures
            final(self).wf(),
            final(self)@ == old(self)@.without(name@),
            r.deep_view() == old(self)@.stack(name@),
    {
        let ghost before = self.stacks.vals.deep_view();
        let ghost found = self.stacks.index_of(name@);
        proof {
            lemma_position(self.stacks.keys.deep_view(), name@);
        }
        let r = self.stacks.remove(name);
        proof {
            match found {
                Some(i) => {
                    assert(self.stacks.vals.deep_view() =~= before.remove(i));
                },
                None => {},
            }
        }
        r
    }

    /// Puts `value` on top of the stack `name`, which is made where it is missing.
    pub fn push(&mut self, name: &str, value: String)
        requires
            old(self).wf(),
        ensures
            final(self).wf(),
            final(self)@ == old(self)@.pushed(name@, value@),
    {
        let ghost before = self.stacks.vals.deep_view();
        proof {
            lemma_position(self.stacks.keys.deep_view(), name@);
        }
        match self.stacks.find(name) {
            Some(i) => {
                let ghost inner = self.stacks.vals[i as int].deep_view();
                self.stacks.vals[i].push(value);
                proof {
                    assert(self.stacks.vals[i as int].deep_view() =~= inner.push(value@));
                    assert(self.stacks.vals.deep_view() =~= before.update(
                        i as int,
                        inner.push(value@),
                    ));
                }
            },
            None => {
                let mut frames: Vec<String> = Vec::new();
                frames.push(value);
                assert(frames.deep_view() =~= seq![value@]);
                let _ = self.put(name, frames);
            },
        }
    }

    /// Takes the top frame off the stack `name`, if there is one.
    pub fn pop(&mut self, name: &str)
        requires
            old(self).wf(),
        ensures
            final(self).wf(),
            final(self)@ == old(self)@.popped(name@),
    {
        let ghost before = self.stacks.vals.deep_view();
        proof {
            lemma_position(self.stacks.keys.deep_view(), name@);
        }
        match self.stacks.find(name) {
            Some(i) => {
                let ghost inner = self.stacks.vals[i as int].deep_view();
                if self.stacks.vals[i].len() > 0 {
                    self.stacks.vals[i].pop();
                    proof {
                        assert(self.stacks.vals[i as int].deep_view() =~= inner.drop_last());
                        assert(self.stacks.vals.deep_view() =~= before.update(
                            i as int,
                            inner.drop_last(),
                        ));
                    }
                }
            },
            None => {},
        }
    }

    /// Empties the stack `name`, if it is there.
    pub fn drain(&mut self, name: &str)
        requires
            old(self).wf(),
        ensures
            final(self).wf(),
            final(self)@ == old(self)@.drained(name@),
    {
        let ghost before = self.stacks.vals.deep_view();
        proof {
            lemma_position(self.stacks.keys.deep_view(), name@);
        }
        match self.stacks.find(name) {
            Some(i) => {
                self.stacks.vals[i].clear();
                proof {
                    assert(self.stacks.vals[i as int].deep_view() =~= Seq::<Seq<char>>::empty());
                    assert(self.stacks.vals.deep_view() =~= before.update(
                        i as int,
                        Seq::<Seq<char>>::empty(),
                    ));
                }
            },
            None => {},
        }
    }

    /// Puts `value` in place of the top frame of the stack `name`.
    pub fn set_top(&mut self, name: &str, value: String)
        requires
            old(self).wf(),
        ensures
            final(self).wf(),
            final(self)@ == old(self)@.with_top(name@, value@),
    {
        self.pop(name);
        self.push(name, value);
    }

    /// Swaps the contents of the stacks `target` and `source`.
    pub fn swap(&mut self, target: &str, source: &str)
        requires
            old(self).wf(),
        ensures
            final(self).wf(),
            final(self)@ == old(self)@.swapped(target@, source@),
    {
        match self.take_stack(source) {
            Some(moved) => {
                match self.put(target, moved) {
                    Some(back) => {
                        self.put(source, back);
                    },
                    None => {},
                }
            },
            None => {},
        }
    }

    /// Every stack has its name and no name stands twice.
    pub open spec fn wf(&self) -> bool {
        self.stacks.wf()
    }

    /// No stacks, first sibling.
    pub fn new() -> (r: Self)
        ensures
            r.wf(),
            r@ == CtxV::empty(),
    {
        let r = Context { stacks: StrMap::new(), parent: None, index: 0 };
        assert(r.stacks.keys.deep_view() =~= Seq::empty());
        assert(r.stacks.vals.deep_view() =~= Seq::empty());
        r
    }

    /// Notes the node at hand by its path.
    pub fn set_parent(&mut self, path: &str)
        ensures
            final(self).wf() == old(self).wf(),
            final(self)@ == (CtxV { parent: Some(path@), ..old(self)@ }),
            final(self).stacks == old(self).stacks,
    {
        self.parent = Some(copy_str(path));
    }

    /// Notes the position of the node at hand among its siblings.
    pub fn set_index(&mut self, index: usize)
        ensures
            final(self).wf() == old(self).wf(),
            final(self)@ == (CtxV { index, ..old(self)@ }),
            final(self).stacks == old(self).stacks,
    {
        self.index = index;
    }
}

impl Default for Context {
    fn default() -> (r: Self)
        ensures
            r.wf(),
            r@ == CtxV::empty(),
    {
        Context::new()
    }
}

} // verus!
