//! Paths as text, and commands.
//!
//! A path here is text whose segments stand between `/`, the same on
//! every machine; it is taken apart character by character and never by
//! the rules of the platform. A segment `.` or an empty segment is
//! therefore a segment like any other, and the results differ from those
//! of `Path` of the standard library on a few inputs, which the functions
//! name where they do.
use crate::cli::types::{AppError, AppErrorV, Source, SourceV};
use crate::strmap::{find_key, lemma_position};
use crate::text::{
    chars_of, copy_str, rfind_upto, split_once, split_once_at, starts_with, str_eq, string_of_range,
};
use vstd::prelude::*;

verus! {

/// Whether a walk enters something of this file name: nothing whose name
/// begins with a dot, but for the directory `.` itself.
pub open spec fn visible(name: Seq<char>) -> bool {
    !"."@.is_prefix_of(name) || "./"@.is_prefix_of(name) || name == "."@
}

/// Whether a walk enters something of this file name.
pub fn is_visible(name: &str) -> (r: bool)
    ensures
        r == visible(name@),
{
    !starts_with(name, ".") || starts_with(name, "./") || str_eq(name, ".")
}

/// The id under which a path is indexed: the path without a leading `./`.
/// Only these two characters leave: the id of `.//x` is `/x`, where
/// `Path` would give `x`.
pub open spec fn path_id(path: Seq<char>) -> Seq<char> {
    if "./"@.is_prefix_of(path) {
        path.skip("./"@.len() as int)
    } else {
        path
    }
}

/// The id under which a path is indexed, with the path.
pub fn into_uri_path_tuple(path: String) -> (r: (String, String))
    ensures
        r.0@ == path_id(path@),
        r.1 == path,
{
    let v = chars_of(path.as_str());
    let p = chars_of("./");
    proof {
        reveal_strlit("./");
        assert(crate::text::occurs_at(v@, 0, p@) == p@.is_prefix_of(v@));
    }
    let id = if crate::text::has_at(&v, 0, &p) {
        let id = string_of_range(&v, 2, v.len());
        assert(v@.subrange(2, v.len() as int) =~= v@.skip(2));
        id
    } else {
        copy_str(path.as_str())
    };
    (id, path)
}

/// The id under which a path is gathered, with the path as a source.
pub fn into_id_source_tuple(path: String) -> (r: (String, Source))
    ensures
        r.0@ == path_id(path@),
        r.1@ == SourceV::Path(path@),
{
    let (id, path) = into_uri_path_tuple(path);
    (id, Source::Path(path))
}

/// The length of `p` without the slashes at its end.
pub open spec fn unslashed_len(p: Seq<char>, n: int) -> int
    decreases n,
{
    if n <= 0 || n > p.len() {
        0
    } else if p[n - 1] == '/' {
        unslashed_len(p, n - 1)
    } else {
        n
    }
}

/// The directory that holds the path `p`, with paths read as text in
/// which `/` separates the segments: slashes at the end of `p` do not
/// count, and neither do those at the end of the result. A path of one
/// segment is held by the empty path, one right below the root by `/`,
/// and the empty path and the root by nothing. A segment `.` counts as a
/// segment: `foo/.` is held by `foo`, where `Path` would give the empty
/// path.
pub open spec fn parent_of(p: Seq<char>) -> Option<Seq<char>> {
    let n = unslashed_len(p, p.len() as int);
    let cut = rfind_upto(p, '/', n);
    let m = unslashed_len(p, cut);
    if n <= 0 {
        None
    } else if cut < 0 {
        Some(Seq::empty())
    } else if m <= 0 {
        Some(seq!['/'])
    } else {
        Some(p.take(m))
    }
}

fn unslashed(p: &Vec<char>, n: usize) -> (r: usize)
    requires
        n <= p.len(),
    ensures
        r == unslashed_len(p@, n as int),
        r <= n,
{
    let mut k: usize = n;
    while k > 0 && p[k - 1] == '/'
        invariant
            k <= n <= p.len(),
            unslashed_len(p@, k as int) == unslashed_len(p@, n as int),
        decreases k,
    {
        k -= 1;
    }
    k
}

/// The directory that holds the path `path`.
pub fn parent(path: &str) -> (r: Option<String>)
    ensures
        r.deep_view() == parent_of(path@),
{
    let p = chars_of(path);
    let n = unslashed(&p, p.len());
    if n == 0 {
        return None;
    }
    let mut cut: usize = n;
    while cut > 0 && p[cut - 1] != '/'
        invariant
            cut <= n <= p.len(),
            rfind_upto(p@, '/', cut as int) == rfind_upto(p@, '/', n as int),
        decreases cut,
    {
        cut -= 1;
    }
    if cut == 0 {
        return Some(String::new());
    }
    let m = unslashed(&p, cut - 1);
    if m == 0 {
        let r = copy_str("/");
        proof {
            reveal_strlit("/");
            assert("/"@ =~= seq!['/']);
        }
        return Some(r);
    }
    let r = string_of_range(&p, 0, m);
    assert(p@.subrange(0, m as int) =~= p@.take(m as int));
    Some(r)
}

/// `dirs` with `d` at its end unless it is there already.
pub open spec fn dirs_with(dirs: Seq<Seq<char>>, d: Seq<char>) -> Seq<Seq<char>> {
    if dirs.contains(d) {
        dirs
    } else {
        dirs.push(d)
    }
}

/// The directories that hold the paths `paths[i..]`, each once, behind
/// those of `acc`; the directory of a path of one segment is `.`. The
/// error names the first path that no directory holds.
pub open spec fn parents_from(paths: Seq<Seq<char>>, i: int, acc: Seq<Seq<char>>) -> Result<
    Seq<Seq<char>>,
    AppErrorV,
>
    decreases paths.len() - i,
{
    if i < 0 || i >= paths.len() {
        Ok(acc)
    } else {
        match parent_of(paths[i]) {
            None => Err(AppErrorV::BadPath(paths[i])),
            Some(d) => parents_from(
                paths,
                i + 1,
                dirs_with(
                    acc,
                    if d.len() == 0 {
                        "."@
                    } else {
                        d
                    },
                ),
            ),
        }
    }
}

/// The directories that hold the given paths, each once.
pub fn parents(paths: Vec<String>) -> (r: Result<Vec<String>, AppError>)
    ensures
        match r {
            Ok(dirs) => parents_from(paths.deep_view(), 0, Seq::empty()) == Ok::<
                Seq<Seq<char>>,
                AppErrorV,
            >(dirs.deep_view()),
            Err(e) => parents_from(paths.deep_view(), 0, Seq::empty()) == Err::<
                Seq<Seq<char>>,
                AppErrorV,
            >(e@),
        },
{
    let mut out: Vec<String> = Vec::new();
    let mut i: usize = 0;
    assert(out.deep_view() =~= Seq::<Seq<char>>::empty());
    while i < paths.len()
        invariant
            i <= paths.len(),
            parents_from(paths.deep_view(), i as int, out.deep_view()) == parents_from(
                paths.deep_view(),
                0,
                Seq::empty(),
            ),
        decreases paths.len() - i,
    {
        assert(paths.deep_view()[i as int] == paths[i as int]@);
        let d = match parent(paths[i].as_str()) {
            Some(d) => d,
            None => {
                return Err(AppError::BadPath(copy_str(paths[i].as_str())));
            },
        };
        let d = if d.as_str().is_empty() {
            copy_str(".")
        } else {
            d
        };
        proof {
            lemma_position(out.deep_view(), d@);
        }
        if find_key(&out, d.as_str()).is_none() {
            let ghost before = out.deep_view();
            out.push(d);
            assert(out.deep_view() =~= before.push(d@));
        }
        i += 1;
    }
    Ok(out)
}

/// The program and the arguments of a command line: what stands before
/// and after its first space.
pub open spec fn command_parts(cmd: Seq<char>) -> (Seq<char>, Seq<char>) {
    match split_once(cmd, ' ') {
        Some((program, args)) => (program, args),
        None => (cmd, Seq::empty()),
    }
}

/// The program and the arguments of a command line.
pub fn split_command(cmd: &str) -> (r: (String, String))
    ensures
        (r.0@, r.1@) == command_parts(cmd@),
{
    match split_once_at(cmd, ' ') {
        Some((program, args)) => (program, args),
        None => (copy_str(cmd), String::new()),
    }
}

/// The words that the `shlex` crate splits a text into, as a shell
/// would; `None` for a text that it cannot split.
pub uninterp spec fn shell_words(args: Seq<char>) -> Option<Seq<Seq<char>>>;

/// Splits arguments with `shlex::split`. The result is a function of the
/// text alone.
#[verifier::external_body]
pub(crate) fn shlex_split(args: &str) -> (r: Option<Vec<String>>)
    ensures
        r.deep_view() == shell_words(args@),
{
    shlex::split(args)
}

/// The arguments of `program`, split as a shell would.
pub fn command_args(program: &str, args: &str) -> (r: Result<Vec<String>, AppError>)
    ensures
        match r {
            Ok(words) => shell_words(args@) == Some(words.deep_view()),
            Err(e) => shell_words(args@) is None && e@ == (AppErrorV::BadExecArgs {
                program: program@,
                args: args@,
            }),
        },
{
    match shlex_split(args) {
        Some(words) => Ok(words),
        None => Err(AppError::BadExecArgs { program: copy_str(program), args: copy_str(args) }),
    }
}

/// The file extension for a media type, by the table of the `mime2ext`
/// crate; `None` for a type that the table does not hold.
pub uninterp spec fn media_extension(media_type: Seq<char>) -> Option<Seq<char>>;

/// Looks a media type up with `mime2ext::mime2ext`. The result is a
/// function of the text alone.
#[verifier::external_body]
pub(crate) fn mime_extension(media_type: &str) -> (r: Option<String>)
    ensures
        r.deep_view() == media_extension(media_type@),
{
    mime2ext::mime2ext(media_type).map(String::from)
}

/// Reads bytes as text with `String::from_utf8`: the text that the bytes
/// encode where they are UTF-8, and else the bytes as they were given.
#[verifier::external_body]
pub(crate) fn text_of_bytes(bytes: Vec<u8>) -> (r: Result<String, Vec<u8>>)
    ensures
        match r {
            Ok(s) => vstd::utf8::valid_utf8(bytes@) && s@ == vstd::utf8::decode_utf8(bytes@),
            Err(b) => !vstd::utf8::valid_utf8(bytes@) && b@ == bytes@,
        },
{
    String::from_utf8(bytes).map_err(|e| e.into_bytes())
}

} // verus!
