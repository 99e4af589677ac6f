//! Reads rule files.
//!
//! A rule file is read line by line. The first line that is not blank is
//! the preamble, `RULES FOR <name> PRODUCE <media-type>`. A line
//! `<STAGE> RULES:` begins the rules of a stage. Any other line that
//! begins at the margin is the path pattern of a new rule, and the
//! indented lines below it are its settings, `IS <FLAG>...`, and its
//! instructions, `OP arg...`.
use crate::compiler::rule::{
    instrs_view, regex_error_text, regex_search, regex_valid, rules_view, InstrV, LangInstr,
    LangRule, LangSettings, RuleV,
};
use crate::compiler::rule_argument::{args_view, Arg, ArgV};
use crate::text::{chars_of, copy_str, split_all, split_char, str_eq, string_of, string_of_range};
use crate::types::{LibError, LibErrorV};
use vstd::prelude::*;

verus! {

/// Blank within a line.
pub open spec fn is_blank(c: char) -> bool {
    c == ' ' || c == '\t' || c == '\r'
}

fn blank(c: char) -> (r: bool)
    ensures
        r == is_blank(c),
{
    c == ' ' || c == '\t' || c == '\r'
}

/// The length of `s` without the blanks at its end.
pub open spec fn trimmed_len(s: Seq<char>, n: int) -> int
    decreases n,
{
    if n <= 0 || n > s.len() {
        0
    } else if is_blank(s[n - 1]) {
        trimmed_len(s, n - 1)
    } else {
        n
    }
}

/// `s` without the blanks at its end.
pub open spec fn trim_end(s: Seq<char>) -> Seq<char> {
    s.take(trimmed_len(s, s.len() as int))
}

proof fn lemma_trimmed_len(s: Seq<char>, n: int)
    requires
        0 <= n <= s.len(),
    ensures
        0 <= trimmed_len(s, n) <= n,
    decreases n,
{
    if n > 0 && is_blank(s[n - 1]) {
        lemma_trimmed_len(s, n - 1);
    }
}

/// `s` without the blanks at its end.
fn trim_end_of(s: &Vec<char>) -> (r: String)
    ensures
        r@ == trim_end(s@),
{
    let mut n: usize = s.len();
    while n > 0 && blank(s[n - 1])
        invariant
            n <= s.len(),
            trimmed_len(s@, n as int) == trimmed_len(s@, s.len() as int),
        decreases n,
    {
        n -= 1;
    }
    let r = string_of_range(s, 0, n);
    assert(s@.subrange(0, n as int) =~= s@.take(n as int));
    r
}

/// A piece of a line: text between double quotes, or a word.
#[derive(Debug, Clone, PartialEq, Eq)]
pub enum Token {
    Quoted(String),
    Word(String),
}

/// Model of a [`Token`].
pub enum TokV {
    Quoted(Seq<char>),
    Word(Seq<char>),
}

impl View for Token {
    type V = TokV;

    open spec fn view(&self) -> TokV {
        match self {
            Token::Quoted(s) => TokV::Quoted(s@),
            Token::Word(s) => TokV::Word(s@),
        }
    }
}

/// The models of a list of tokens.
pub open spec fn toks_view(s: Seq<Token>) -> Seq<TokV> {
    s.map_values(|t: Token| t@)
}

/// The end of the word that stands at `i`: the next blank, or the end.
pub open spec fn word_end(s: Seq<char>, i: int) -> int
    decreases s.len() - i,
{
    if i < 0 || i >= s.len() {
        s.len() as int
    } else if is_blank(s[i]) {
        i
    } else {
        word_end(s, i + 1)
    }
}

/// The place of the quote that ends the quoted text from `i` on; a
/// backslash takes the character behind it along. `s.len()` where the
/// text does not end.
pub open spec fn quote_end(s: Seq<char>, i: int) -> int
    decreases s.len() - i,
{
    if i < 0 || i >= s.len() {
        s.len() as int
    } else if s[i] == '\\' && i + 1 < s.len() {
        quote_end(s, i + 2)
    } else if s[i] == '"' {
        i
    } else {
        quote_end(s, i + 1)
    }
}

/// A word ends at or behind the place where it begins, and behind it
/// where a character that is not blank stands there.
pub proof fn lemma_word_end(s: Seq<char>, i: int)
    requires
        0 <= i <= s.len(),
    ensures
        i <= word_end(s, i) <= s.len(),
        i < s.len() && !is_blank(s[i]) ==> i < word_end(s, i),
    decreases s.len() - i,
{
    if i < s.len() && !is_blank(s[i]) {
        lemma_word_end(s, i + 1);
    }
}

proof fn lemma_quote_end(s: Seq<char>, i: int)
    requires
        0 <= i <= s.len(),
    ensures
        i <= quote_end(s, i) <= s.len(),
    decreases s.len() - i,
{
    if i < s.len() {
        if s[i] == '\\' && i + 1 < s.len() {
            lemma_quote_end(s, i + 2);
        } else if s[i] != '"' {
            lemma_quote_end(s, i + 1);
        }
    }
}

/// The tokens of `s` from `i` on, behind those of `acc`: words are
/// separated by blanks, and quoted text is kept as it is written, without
/// its quotes. `None` where quoted text does not end.
pub open spec fn lex_from(s: Seq<char>, i: int, acc: Seq<TokV>) -> Option<Seq<TokV>>
    decreases s.len() - i,
{
    if i < 0 || i >= s.len() {
        Some(acc)
    } else if is_blank(s[i]) {
        lex_from(s, i + 1, acc)
    } else if s[i] == '"' {
        let e = quote_end(s, i + 1);
        if e >= s.len() || e <= i {
            None
        } else {
            lex_from(s, e + 1, acc.push(TokV::Quoted(s.subrange(i + 1, e))))
        }
    } else {
        let e = word_end(s, i);
        if e <= i || e > s.len() {
            None
        } else {
            lex_from(s, e, acc.push(TokV::Word(s.subrange(i, e))))
        }
    }
}

/// The tokens of a line.
pub open spec fn lexed(s: Seq<char>) -> Option<Seq<TokV>> {
    lex_from(s, 0, Seq::empty())
}

/// The tokens of a line.
pub fn lex(s: &Vec<char>) -> (r: Option<Vec<Token>>)
    ensures
        match r {
            Some(t) => lexed(s@) == Some(toks_view(t@)),
            None => lexed(s@) is None,
        },
{
    let mut out: Vec<Token> = Vec::new();
    let mut i: usize = 0;
    assert(toks_view(out@) =~= Seq::<TokV>::empty());
    while i < s.len()
        invariant
            i <= s.len(),
            lex_from(s@, i as int, toks_view(out@)) == lexed(s@),
        decreases s.len() - i,
    {
        let ghost before = toks_view(out@);
        if blank(s[i]) {
            i += 1;
        } else if s[i] == '"' {
            let mut e: usize = i + 1;
            proof {
                lemma_quote_end(s@, i + 1);
            }
            while e < s.len() && s[e] != '"'
                invariant
                    i < e <= s.len(),
                    quote_end(s@, e as int) == quote_end(s@, i + 1),
                decreases s.len() - e,
            {
                if s[e] == '\\' && e + 1 < s.len() {
                    proof {
                        lemma_quote_end(s@, e + 2);
                    }
                    e += 2;
                } else {
                    e += 1;
                }
            }
            if e >= s.len() {
                return None;
            }
            out.push(Token::Quoted(string_of_range(s, i + 1, e)));
            assert(toks_view(out@) =~= before.push(TokV::Quoted(s@.subrange(i + 1, e as int))));
            i = e + 1;
        } else {
            let mut e: usize = i;
            proof {
                lemma_word_end(s@, i as int);
            }
            while e < s.len() && !blank(s[e])
                invariant
                    i <= e <= s.len(),
                    word_end(s@, e as int) == word_end(s@, i as int),
                decreases s.len() - e,
            {
                e += 1;
            }
            out.push(Token::Word(string_of_range(s, i, e)));
            assert(toks_view(out@) =~= before.push(TokV::Word(s@.subrange(i as int, e as int))));
            i = e;
        }
    }
    Some(out)
}

/// Whether `w` is written as a whole number: digits, with or without a
/// `-` before them.
pub open spec fn is_number(w: Seq<char>) -> bool {
    if w.len() > 0 && w[0] == '-' {
        w.len() > 1 && all_digits(w, 1)
    } else {
        w.len() > 0 && all_digits(w, 0)
    }
}

/// Whether `w[i..]` holds digits only.
pub open spec fn all_digits(w: Seq<char>, i: int) -> bool
    decreases w.len() - i,
{
    if i < 0 || i >= w.len() {
        true
    } else {
        '0' <= w[i] <= '9' && all_digits(w, i + 1)
    }
}

/// The number that the digits `w[i..]` add to `acc`.
pub open spec fn digits_value(w: Seq<char>, i: int, acc: int) -> int
    decreases w.len() - i,
{
    if i < 0 || i >= w.len() {
        acc
    } else {
        digits_value(w, i + 1, acc * 10 + (w[i] as int - '0' as int))
    }
}

/// The number that `w` is written for.
pub open spec fn number_value(w: Seq<char>) -> int {
    if w.len() > 0 && w[0] == '-' {
        -digits_value(w, 1, 0)
    } else {
        digits_value(w, 0, 0)
    }
}

proof fn lemma_digits_grow(w: Seq<char>, i: int, acc: int)
    requires
        0 <= i <= w.len(),
        0 <= acc,
        all_digits(w, i),
    ensures
        digits_value(w, i, acc) >= acc,
    decreases w.len() - i,
{
    if i < w.len() {
        lemma_digits_grow(w, i + 1, acc * 10 + (w[i] as int - '0' as int));
    }
}

/// Whether `w` is written as a whole number.
fn number_shape(w: &Vec<char>) -> (r: bool)
    ensures
        r == is_number(w@),
{
    let start: usize = if w.len() > 0 && w[0] == '-' {
        1
    } else {
        0
    };
    if w.len() <= start {
        return false;
    }
    let mut i: usize = start;
    assert(is_number(w@) == all_digits(w@, start as int));
    while i < w.len()
        invariant
            start <= i <= w.len(),
            is_number(w@) == all_digits(w@, start as int),
            all_digits(w@, i as int) == all_digits(w@, start as int),
        decreases w.len() - i,
    {
        if !('0' <= w[i] && w[i] <= '9') {
            return false;
        }
        i += 1;
    }
    true
}

/// The number that `w` is written for, where it fits an `i64`.
fn number_of(w: &Vec<char>) -> (r: Option<i64>)
    requires
        is_number(w@),
    ensures
        match r {
            Some(v) => v == number_value(w@),
            None => number_value(w@) < i64::MIN || number_value(w@) > i64::MAX,
        },
{
    let negative = w.len() > 0 && w[0] == '-';
    let start: usize = if negative {
        1
    } else {
        0
    };
    let mut acc: u64 = 0;
    let mut i: usize = start;
    let limit: u64 = 9223372036854775808u64;
    assert(all_digits(w@, start as int));
    assert(number_value(w@) == if negative {
        -digits_value(w@, start as int, 0)
    } else {
        digits_value(w@, start as int, 0)
    });
    while i < w.len()
        invariant
            start <= i <= w.len(),
            all_digits(w@, i as int),
            number_value(w@) == if negative {
                -digits_value(w@, start as int, 0)
            } else {
                digits_value(w@, start as int, 0)
            },
            acc <= limit,
            limit == 9223372036854775808u64,
            digits_value(w@, i as int, acc as int) == digits_value(w@, start as int, 0),
        decreases w.len() - i,
    {
        let d: u64 = (w[i] as u32 - '0' as u32) as u64;
        if acc > (limit - d) / 10 {
            proof {
                let next = acc * 10 + d;
                assert(next > limit);
                lemma_digits_grow(w@, i + 1, next as int);
            }
            return None;
        }
        acc = acc * 10 + d;
        i += 1;
    }
    if negative {
        if acc == limit {
            Some(i64::MIN)
        } else {
            Some(-(acc as i64))
        }
    } else {
        if acc == limit {
            None
        } else {
            Some(acc as i64)
        }
    }
}

/// The arguments that the tokens `toks[k..]` stand for, behind those of
/// `acc`. Quoted text is a string, `PROP name` a property, `TO "path"` a
/// file, `TO type` a media type, `AS "id"` a URI path, a number an
/// integer, and any other word a stack.
pub open spec fn args_from(toks: Seq<TokV>, k: int, acc: Seq<ArgV>) -> Result<Seq<ArgV>, LibErrorV>
    decreases toks.len() - k,
{
    if k < 0 || k >= toks.len() {
        Ok(acc)
    } else {
        match toks[k] {
            TokV::Quoted(v) => args_from(toks, k + 1, acc.push(ArgV::Str(v))),
            TokV::Word(w) => if w == "PROP"@ {
                if k + 1 < toks.len() && toks[k + 1] is Word {
                    args_from(toks, k + 2, acc.push(ArgV::PropRef(toks[k + 1]->Word_0)))
                } else {
                    Err(LibErrorV::InvalidRuleArgument(w))
                }
            } else if w == "TO"@ {
                if k + 1 < toks.len() {
                    match toks[k + 1] {
                        TokV::Quoted(p) => args_from(toks, k + 2, acc.push(ArgV::File(p))),
                        TokV::Word(m) => args_from(toks, k + 2, acc.push(ArgV::MediaType(m))),
                    }
                } else {
                    Err(LibErrorV::InvalidRuleArgument(w))
                }
            } else if w == "AS"@ {
                if k + 1 < toks.len() && toks[k + 1] is Quoted {
                    args_from(toks, k + 2, acc.push(ArgV::URIPath(toks[k + 1]->Quoted_0)))
                } else {
                    Err(LibErrorV::InvalidRuleArgument(w))
                }
            } else if is_number(w) {
                if i64::MIN <= number_value(w) <= i64::MAX {
                    args_from(toks, k + 1, acc.push(ArgV::Int(number_value(w) as i64)))
                } else {
                    Err(LibErrorV::InvalidRuleArgumentType(w, "int"@))
                }
            } else {
                args_from(toks, k + 1, acc.push(ArgV::StackRef(w)))
            },
        }
    }
}

/// The arguments that the tokens `toks[from..]` stand for.
pub fn parse_args(toks: &Vec<Token>, from: usize) -> (r: Result<Vec<Arg>, LibError>)
    requires
        from <= toks.len(),
    ensures
        match r {
            Ok(a) => args_from(toks_view(toks@), from as int, Seq::empty()) == Ok::<
                Seq<ArgV>,
                LibErrorV,
            >(args_view(a@)),
            Err(e) => args_from(toks_view(toks@), from as int, Seq::empty()) == Err::<
                Seq<ArgV>,
                LibErrorV,
            >(e@),
        },
{
    let ghost all = toks_view(toks@);
    let mut out: Vec<Arg> = Vec::new();
    let mut k: usize = from;
    assert(args_view(out@) =~= Seq::<ArgV>::empty());
    while k < toks.len()
        invariant
            from <= k <= toks.len(),
            all == toks_view(toks@),
            args_from(all, k as int, args_view(out@)) == args_from(all, from as int, Seq::empty()),
        decreases toks.len() - k,
    {
        let ghost before = args_view(out@);
        assert(all[k as int] == toks[k as int]@);
        if k + 1 < toks.len() {
            assert(all[k + 1] == toks[k + 1]@);
        }
        match &toks[k] {
            Token::Quoted(v) => {
                out.push(Arg::Str(copy_str(v.as_str())));
                assert(args_view(out@) =~= before.push(ArgV::Str(v@)));
                k += 1;
            },
            Token::Word(w) => {
                if str_eq(w.as_str(), "PROP") {
                    if k + 1 < toks.len() {
                        match &toks[k + 1] {
                            Token::Word(name) => {
                                out.push(Arg::PropRef(copy_str(name.as_str())));
                                assert(args_view(out@) =~= before.push(ArgV::PropRef(name@)));
                                k += 2;
                            },
                            Token::Quoted(_) => {
                                return Err(LibError::InvalidRuleArgument(copy_str(w.as_str())));
                            },
                        }
                    } else {
                        return Err(LibError::InvalidRuleArgument(copy_str(w.as_str())));
                    }
                } else if str_eq(w.as_str(), "TO") {
                    if k + 1 < toks.len() {
                        match &toks[k + 1] {
                            Token::Quoted(p) => {
                                out.push(Arg::File(copy_str(p.as_str())));
                                assert(args_view(out@) =~= before.push(ArgV::File(p@)));
                            },
                            Token::Word(m) => {
                                out.push(Arg::MediaType(copy_str(m.as_str())));
                                assert(args_view(out@) =~= before.push(ArgV::MediaType(m@)));
                            },
                        }
                        k += 2;
                    } else {
                        return Err(LibError::InvalidRuleArgument(copy_str(w.as_str())));
                    }
                } else if str_eq(w.as_str(), "AS") {
                    if k + 1 < toks.len() {
                        match &toks[k + 1] {
                            Token::Quoted(id) => {
                                out.push(Arg::URIPath(copy_str(id.as_str())));
                                assert(args_view(out@) =~= before.push(ArgV::URIPath(id@)));
                                k += 2;
                            },
                            Token::Word(_) => {
                                return Err(LibError::InvalidRuleArgument(copy_str(w.as_str())));
                            },
                        }
                    } else {
                        return Err(LibError::InvalidRuleArgument(copy_str(w.as_str())));
                    }
                } else {
                    let wv = chars_of(w.as_str());
                    if number_shape(&wv) {
                        match number_of(&wv) {
                            Some(v) => {
                                out.push(Arg::Int(v));
                                assert(args_view(out@) =~= before.push(ArgV::Int(v)));
                                k += 1;
                            },
                            None => {
                                return Err(
                                    LibError::InvalidRuleArgumentType(
                                        copy_str(w.as_str()),
                                        copy_str("int"),
                                    ),
                                );
                            },
                        }
                    } else {
                        out.push(Arg::StackRef(copy_str(w.as_str())));
                        assert(args_view(out@) =~= before.push(ArgV::StackRef(w@)));
                        k += 1;
                    }
                }
            },
        }
    }
    Ok(out)
}

/// What one word of a settings line sets. `None` for a word that names
/// a default scheme that there is not.
pub open spec fn setting_of(w: Seq<char>, set: LangSettings) -> Option<LangSettings> {
    if w == "COMPOSABLE"@ {
        Some(LangSettings { is_composable: true, ..set })
    } else if w == "PARAGRAPHABLE"@ {
        Some(LangSettings { is_paragraphable: true, ..set })
    } else if w == "UNESCAPED_VALUE"@ {
        Some(LangSettings { is_unescaped_value: true, ..set })
    } else if w == "SRC-BY-EXEC"@ {
        Some(LangSettings { default_src: Some("exec"), ..set })
    } else if w == "SRC-BY-COPY"@ {
        Some(LangSettings { default_src: Some("copy"), ..set })
    } else if w == "REF-BY-COPY"@ {
        Some(LangSettings { default_ref: Some("copy"), ..set })
    } else if crate::cli::command::contains_text(w, "-BY-"@) {
        None
    } else {
        Some(set)
    }
}

/// The settings that the tokens `toks[k..]` add to `set`; the error
/// carries the word that names no default.
pub open spec fn settings_from(toks: Seq<TokV>, k: int, set: LangSettings) -> Result<
    LangSettings,
    LibErrorV,
>
    decreases toks.len() - k,
{
    if k < 0 || k >= toks.len() {
        Ok(set)
    } else {
        match toks[k] {
            TokV::Quoted(v) => Err(LibErrorV::ParseRuleError(v)),
            TokV::Word(w) => match setting_of(w, set) {
                Some(next) => settings_from(toks, k + 1, next),
                None => Err(LibErrorV::ParseRuleError(w)),
            },
        }
    }
}

/// The settings that the tokens `toks[from..]` give.
pub fn parse_settings(toks: &Vec<Token>, from: usize) -> (r: Result<LangSettings, LibError>)
    requires
        from <= toks.len(),
    ensures
        match r {
            Ok(s) => settings_from(toks_view(toks@), from as int, LangSettings::none()) == Ok::<
                LangSettings,
                LibErrorV,
            >(s),
            Err(e) => settings_from(toks_view(toks@), from as int, LangSettings::none()) == Err::<
                LangSettings,
                LibErrorV,
            >(e@),
        },
{
    let ghost all = toks_view(toks@);
    let mut set = LangSettings::default();
    let mut k: usize = from;
    while k < toks.len()
        invariant
            from <= k <= toks.len(),
            all == toks_view(toks@),
            settings_from(all, k as int, set) == settings_from(
                all,
                from as int,
                LangSettings::none(),
            ),
        decreases toks.len() - k,
    {
        assert(all[k as int] == toks[k as int]@);
        match &toks[k] {
            Token::Quoted(v) => {
                return Err(LibError::ParseRuleError(copy_str(v.as_str())));
            },
            Token::Word(w) => {
                let w = w.as_str();
                if str_eq(w, "COMPOSABLE") {
                    set.is_composable = true;
                } else if str_eq(w, "PARAGRAPHABLE") {
                    set.is_paragraphable = true;
                } else if str_eq(w, "UNESCAPED_VALUE") {
                    set.is_unescaped_value = true;
                } else if str_eq(w, "SRC-BY-EXEC") {
                    set.default_src = Some("exec");
                } else if str_eq(w, "SRC-BY-COPY") {
                    set.default_src = Some("copy");
                } else if str_eq(w, "REF-BY-COPY") {
                    set.default_ref = Some("copy");
                } else if crate::cli::command::text_contains(w, "-BY-") {
                    return Err(LibError::ParseRuleError(copy_str(w)));
                }
            },
        }
        k += 1;
    }
    Ok(set)
}

/// The regular expression for the path pattern `p`, from `i` on: `[`
/// becomes `\[ ?`, `]` becomes ` ?\]`, and `...` stands for any run of
/// characters other than `]`.
pub open spec fn path_regex_from(p: Seq<char>, i: int) -> Seq<char>
    decreases p.len() - i,
{
    if i < 0 || i >= p.len() {
        Seq::empty()
    } else if p[i] == '[' {
        seq!['\\', '[', ' ', '?'] + path_regex_from(p, i + 1)
    } else if p[i] == ']' {
        seq![' ', '?', '\\', ']'] + path_regex_from(p, i + 1)
    } else if p[i] == '.' && i + 2 < p.len() && p[i + 1] == '.' && p[i + 2] == '.' {
        seq!['[', '^', ']', ']', '*'] + path_regex_from(p, i + 3)
    } else {
        seq![p[i]] + path_regex_from(p, i + 1)
    }
}

/// The regular expression for a path pattern.
pub open spec fn path_regex(p: Seq<char>) -> Seq<char> {
    path_regex_from(p, 0)
}

/// The regular expression for a path pattern.
pub fn path_regex_of(path: &str) -> (r: String)
    ensures
        r@ == path_regex(path@),
{
    let p = chars_of(path);
    let mut out: Vec<char> = Vec::new();
    let mut i: usize = 0;
    while i < p.len()
        invariant
            i <= p.len(),
            p@ == path@,
            out@ + path_regex_from(p@, i as int) == path_regex(p@),
        decreases p.len() - i,
    {
        let ghost before = out@;
        let c = p[i];
        if c == '[' {
            out.push('\\');
            out.push('[');
            out.push(' ');
            out.push('?');
            assert(out@ =~= before + seq!['\\', '[', ' ', '?']);
            assert(out@ + path_regex_from(p@, i + 1) =~= before + (seq!['\\', '[', ' ', '?']
                + path_regex_from(p@, i + 1)));
            i += 1;
        } else if c == ']' {
            out.push(' ');
            out.push('?');
            out.push('\\');
            out.push(']');
            assert(out@ =~= before + seq![' ', '?', '\\', ']']);
            assert(out@ + path_regex_from(p@, i + 1) =~= before + (seq![' ', '?', '\\', ']']
                + path_regex_from(p@, i + 1)));
            i += 1;
        } else if c == '.' && p.len() - i > 2 && p[i + 1] == '.' && p[i + 2] == '.' {
            out.push('[');
            out.push('^');
            out.push(']');
            out.push(']');
            out.push('*');
            assert(out@ =~= before + seq!['[', '^', ']', ']', '*']);
            assert(out@ + path_regex_from(p@, i + 3) =~= before + (seq!['[', '^', ']', ']', '*']
                + path_regex_from(p@, i + 3)));
            i += 3;
        } else {
            out.push(c);
            assert(out@ + path_regex_from(p@, i + 1) =~= before + (seq![c] + path_regex_from(
                p@,
                i + 1,
            )));
            i += 1;
        }
    }
    assert(out@ + Seq::<char>::empty() =~= out@);
    string_of(&out)
}

/// What has been read of a rule file.
#[derive(Debug)]
pub struct Draft {
    pub name: String,
    pub media_type: String,
    pub seen_preamble: bool,
    /// 0 before the first stage, 1 in `PREPROCESS`, 2 in `COMPILE`.
    pub stage: u8,
    pub preprocess: Vec<LangRule>,
    pub compile: Vec<LangRule>,
    /// The rule whose lines are being read.
    pub current: Option<LangRule>,
    /// Whether the rule at hand has its settings line.
    pub has_settings: bool,
}

/// Model of a [`Draft`].
pub struct DraftV {
    pub name: Seq<char>,
    pub media_type: Seq<char>,
    pub seen_preamble: bool,
    pub stage: u8,
    pub preprocess: Seq<RuleV>,
    pub compile: Seq<RuleV>,
    pub current: Option<RuleV>,
    pub has_settings: bool,
}

impl View for Draft {
    type V = DraftV;

    open spec fn view(&self) -> DraftV {
        DraftV {
            name: self.name@,
            media_type: self.media_type@,
            seen_preamble: self.seen_preamble,
            stage: self.stage,
            preprocess: rules_view(self.preprocess@),
            compile: rules_view(self.compile@),
            current: match self.current {
                Some(r) => Some(r@),
                None => None,
            },
            has_settings: self.has_settings,
        }
    }
}

impl DraftV {
    /// Nothing read yet.
    pub open spec fn start() -> DraftV {
        DraftV {
            name: Seq::empty(),
            media_type: Seq::empty(),
            seen_preamble: false,
            stage: 0,
            preprocess: Seq::empty(),
            compile: Seq::empty(),
            current: None,
            has_settings: false,
        }
    }

    /// The rule at hand put behind the rules of its stage.
    pub open spec fn flushed(self) -> DraftV {
        match self.current {
            Some(r) => if self.stage == 2 {
                DraftV {
                    compile: self.compile.push(r),
                    current: None,
                    has_settings: false,
                    ..self
                }
            } else {
                DraftV {
                    preprocess: self.preprocess.push(r),
                    current: None,
                    has_settings: false,
                    ..self
                }
            },
            None => self,
        }
    }
}

/// Whether a line is blank all through.
pub open spec fn blank_line(line: Seq<char>) -> bool {
    trimmed_len(line, line.len() as int) == 0
}

/// Whether the tokens are those of a preamble.
pub open spec fn is_preamble(toks: Option<Seq<TokV>>) -> bool {
    toks matches Some(t) && t.len() == 5 && t[0] == TokV::Word("RULES"@) && t[1] == TokV::Word(
        "FOR"@,
    ) && t[2] is Word && t[3] == TokV::Word("PRODUCE"@) && t[4] is Word
}

/// Whether the tokens are those of the line that begins a stage.
pub open spec fn is_stage_line(toks: Option<Seq<TokV>>) -> bool {
    toks matches Some(t) && t.len() == 2 && t[0] is Word && t[1] == TokV::Word("RULES:"@)
}

/// What one line adds to what has been read.
pub open spec fn feed(d: DraftV, line: Seq<char>) -> Result<DraftV, LibErrorV> {
    let toks = lexed(line);
    if blank_line(line) {
        Ok(d)
    } else if is_blank(line[0]) {
        // a line of the rule at hand
        match d.current {
            None => Err(LibErrorV::ParseRuleError(trim_end(line))),
            Some(rule) => match toks {
                None => Err(LibErrorV::InvalidRuleArgument(trim_end(line))),
                Some(t) => if t.len() == 0 || t[0] is Quoted {
                    Err(LibErrorV::InvalidRule(trim_end(line)))
                } else if t[0] == TokV::Word("IS"@) && !d.has_settings && rule.instructions.len()
                    == 0 {
                    match settings_from(t, 1, LangSettings::none()) {
                        Ok(set) => Ok(
                            DraftV {
                                current: Some(RuleV { settings: set, ..rule }),
                                has_settings: true,
                                ..d
                            },
                        ),
                        Err(e) => Err(e),
                    }
                } else {
                    match args_from(t, 1, Seq::empty()) {
                        Ok(args) => Ok(
                            DraftV {
                                current: Some(
                                    RuleV {
                                        instructions: rule.instructions.push(
                                            InstrV { op: t[0]->Word_0, args },
                                        ),
                                        ..rule
                                    },
                                ),
                                ..d
                            },
                        ),
                        Err(e) => Err(e),
                    }
                },
            },
        }
    } else if !d.seen_preamble {
        if is_preamble(toks) {
            Ok(
                DraftV {
                    name: toks->Some_0[2]->Word_0,
                    media_type: toks->Some_0[4]->Word_0,
                    seen_preamble: true,
                    ..d
                },
            )
        } else {
            Err(LibErrorV::ParseRuleError(trim_end(line)))
        }
    } else if is_stage_line(toks) {
        let name = toks->Some_0[0]->Word_0;
        if name == "COMPILE"@ {
            Ok(DraftV { stage: 2, ..d.flushed() })
        } else if name == "PREPROCESS"@ {
            Ok(DraftV { stage: 1, ..d.flushed() })
        } else {
            Err(LibErrorV::UnknownRuleSection(name))
        }
    } else if d.stage == 0 {
        Err(LibErrorV::ParseRuleError(trim_end(line)))
    } else if !regex_valid(path_regex(trim_end(line))) {
        Err(LibErrorV::BadRuleRegex)
    } else {
        Ok(
            DraftV {
                current: Some(
                    RuleV {
                        path: trim_end(line),
                        regex: path_regex(trim_end(line)),
                        instructions: Seq::empty(),
                        settings: LangSettings::none(),
                    },
                ),
                has_settings: false,
                ..d.flushed()
            },
        )
    }
}

/// What the lines `lines[i..]` add to what has been read.
pub open spec fn feed_all(d: DraftV, lines: Seq<Seq<char>>, i: int) -> Result<DraftV, LibErrorV>
    decreases lines.len() - i,
{
    if i < 0 || i >= lines.len() {
        Ok(d)
    } else {
        match feed(d, lines[i]) {
            Ok(next) => feed_all(next, lines, i + 1),
            Err(e) => Err(e),
        }
    }
}

/// What a rule file holds: its lines read in order; a file without a
/// preamble holds nothing.
pub open spec fn parsed(input: Seq<char>) -> Result<DraftV, LibErrorV> {
    match feed_all(DraftV::start(), split_char(input, '\n'), 0) {
        Ok(d) => if d.seen_preamble {
            Ok(d.flushed())
        } else {
            Err(LibErrorV::MissingRoot)
        },
        Err(e) => Err(e),
    }
}

impl Draft {
    /// Nothing read yet.
    pub fn start() -> (r: Draft)
        ensures
            r@ == DraftV::start(),
    {
        let r = Draft {
            name: String::new(),
            media_type: String::new(),
            seen_preamble: false,
            stage: 0,
            preprocess: Vec::new(),
            compile: Vec::new(),
            current: None,
            has_settings: false,
        };
        assert(r@.preprocess =~= Seq::empty());
        assert(r@.compile =~= Seq::empty());
        r
    }

    /// Puts the rule at hand behind the rules of its stage.
    pub fn flush(&mut self)
        ensures
            final(self)@ == old(self)@.flushed(),
    {
        let ghost before = self@;
        match self.current.take() {
            Some(r) => {
                if self.stage == 2 {
                    self.compile.push(r);
                    assert(rules_view(self.compile@) =~= before.compile.push(r@));
                } else {
                    self.preprocess.push(r);
                    assert(rules_view(self.preprocess@) =~= before.preprocess.push(r@));
                }
                self.has_settings = false;
            },
            None => {},
        }
    }

    /// Reads one line. A line that is refused leaves the draft as it was.
    pub fn feed(&mut self, line: &str) -> (r: Result<(), LibError>)
        ensures
            match r {
                Ok(_) => feed(old(self)@, line@) == Ok::<DraftV, LibErrorV>(final(self)@),
                Err(e) => {
                    &&& feed(old(self)@, line@) == Err::<DraftV, LibErrorV>(e@)
                    &&& final(self)@ == old(self)@
                },
            },
    {
        let v = chars_of(line);
        let trimmed = trim_end_of(&v);
        proof {
            lemma_trimmed_len(v@, v.len() as int);
        }
        if trimmed.as_str().is_empty() {
            return Ok(());
        }
        assert(v.len() > 0);
        let toks = lex(&v);
        let ghost d = self@;
        if blank(v[0]) {
            let mut rule = match self.current.take() {
                Some(r) => r,
                None => {
                    return Err(LibError::ParseRuleError(trimmed));
                },
            };
            let ghost rule0 = rule@;
            let t = match toks {
                Some(t) => t,
                None => {
                    self.current = Some(rule);
                    return Err(LibError::InvalidRuleArgument(trimmed));
                },
            };
            if t.len() > 0 {
                assert(toks_view(t@)[0] == t[0]@);
            }
            let op: String = if t.len() == 0 {
                self.current = Some(rule);
                return Err(LibError::InvalidRule(trimmed));
            } else {
                match &t[0] {
                    Token::Quoted(_) => {
                        self.current = Some(rule);
                        return Err(LibError::InvalidRule(trimmed));
                    },
                    Token::Word(w) => copy_str(w.as_str()),
                }
            };
            if str_eq(op.as_str(), "IS") && !self.has_settings && rule.instructions.len() == 0 {
                assert(rule0.instructions.len() == 0);
                match parse_settings(&t, 1) {
                    Ok(set) => {
                        rule.settings = set;
                        self.current = Some(rule);
                        self.has_settings = true;
                        Ok(())
                    },
                    Err(e) => {
                        self.current = Some(rule);
                        Err(e)
                    },
                }
            } else {
                assert(rule0.instructions.len() == rule.instructions.len());
                match parse_args(&t, 1) {
                    Ok(args) => {
                        let ghost before = instrs_view(rule.instructions@);
                        let inst = LangInstr { op, args };
                        rule.instructions.push(inst);
                        assert(instrs_view(rule.instructions@) =~= before.push(inst@));
                        self.current = Some(rule);
                        Ok(())
                    },
                    Err(e) => {
                        self.current = Some(rule);
                        Err(e)
                    },
                }
            }
        } else if !self.seen_preamble {
            match toks {
                Some(t) => {
                    if t.len() == 5 {
                        proof {
                            assert(toks_view(t@)[0] == t[0]@);
                            assert(toks_view(t@)[1] == t[1]@);
                            assert(toks_view(t@)[2] == t[2]@);
                            assert(toks_view(t@)[3] == t[3]@);
                            assert(toks_view(t@)[4] == t[4]@);
                        }
                        match (&t[0], &t[1], &t[2], &t[3], &t[4]) {
                            (
                                Token::Word(a),
                                Token::Word(b),
                                Token::Word(name),
                                Token::Word(c),
                                Token::Word(media),
                            ) => {
                                if str_eq(a.as_str(), "RULES") && str_eq(b.as_str(), "FOR")
                                    && str_eq(c.as_str(), "PRODUCE") {
                                    self.name = copy_str(name.as_str());
                                    self.media_type = copy_str(media.as_str());
                                    self.seen_preamble = true;
                                    return Ok(());
                                }
                            },
                            _ => {},
                        }
                    }
                },
                None => {},
            }
            Err(LibError::ParseRuleError(trimmed))
        } else {
            let mut stage_name: Option<String> = None;
            match &toks {
                Some(t) => {
                    if t.len() == 2 {
                        proof {
                            assert(toks_view(t@)[0] == t[0]@);
                            assert(toks_view(t@)[1] == t[1]@);
                        }
                        match (&t[0], &t[1]) {
                            (Token::Word(name), Token::Word(tail)) => {
                                if str_eq(tail.as_str(), "RULES:") {
                                    stage_name = Some(copy_str(name.as_str()));
                                }
                            },
                            _ => {},
                        }
                    }
                },
                None => {},
            }
            assert(stage_name is Some == is_stage_line(lexed(line@)));
            match stage_name {
                Some(name) => {
                    if str_eq(name.as_str(), "COMPILE") {
                        self.flush();
                        self.stage = 2;
                        Ok(())
                    } else if str_eq(name.as_str(), "PREPROCESS") {
                        self.flush();
                        self.stage = 1;
                        Ok(())
                    } else {
                        Err(LibError::UnknownRuleSection(name))
                    }
                },
                None => {
                    if self.stage == 0 {
                        return Err(LibError::ParseRuleError(trimmed));
                    }
                    let regex = path_regex_of(trimmed.as_str());
                    match regex_search(regex.as_str(), "") {
                        Ok(_) => {},
                        Err(e) => {
                            return Err(LibError::BadRuleRegex(regex_error_text(&e)));
                        },
                    }
                    self.flush();
                    let rule = LangRule {
                        path: trimmed,
                        regex,
                        instructions: Vec::new(),
                        settings: LangSettings::default(),
                    };
                    assert(instrs_view(rule.instructions@) =~= Seq::<InstrV>::empty());
                    self.current = Some(rule);
                    self.has_settings = false;
                    Ok(())
                },
            }
        }
    }
}

/// Reads a rule file: the name of the language, its media type, and the
/// rules of its two stages.
pub fn parse(input: &str) -> (r: Result<Draft, LibError>)
    ensures
        match r {
            Ok(d) => parsed(input@) == Ok::<DraftV, LibErrorV>(d@),
            Err(e) => parsed(input@) == Err::<DraftV, LibErrorV>(e@),
        },
{
    let lines = split_all(input, '\n');
    let mut d = Draft::start();
    let mut i: usize = 0;
    while i < lines.len()
        invariant
            i <= lines.len(),
            lines.deep_view() == split_char(input@, '\n'),
            feed_all(d@, lines.deep_view(), i as int) == feed_all(
                DraftV::start(),
                lines.deep_view(),
                0,
            ),
        decreases lines.len() - i,
    {
        assert(lines.deep_view()[i as int] == lines[i as int]@);
        match d.feed(lines[i].as_str()) {
            Ok(_) => {},
            Err(e) => {
                return Err(e);
            },
        }
        i += 1;
    }
    if !d.seen_preamble {
        return Err(LibError::MissingRoot);
    }
    d.flush();
    Ok(d)
}

} // verus!
