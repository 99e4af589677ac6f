//! Sources, outputs, artifacts and errors of the pipeline.
use crate::ast::{Node, NodeV};
use crate::strmap::StrMap;
use crate::text::{copy_str, starts_with, str_eq};
use crate::types::{LibError, LibErrorV, Location, LocationV};
use vstd::prelude::*;

verus! {

/// Where output goes.
#[derive(Debug, Clone, PartialEq, Eq)]
pub enum Output {
    StdOut,
    StdOutLog,
    Path(String),
}

/// Model of an [`Output`].
pub enum OutputV {
    StdOut,
    StdOutLog,
    Path(Seq<char>),
}

impl View for Output {
    type V = OutputV;

    open spec fn view(&self) -> OutputV {
        match self {
            Output::StdOut => OutputV::StdOut,
            Output::StdOutLog => OutputV::StdOutLog,
            Output::Path(p) => OutputV::Path(p@),
        }
    }
}

impl OutputV {
    /// How the output is named in messages.
    pub open spec fn text(self) -> Seq<char> {
        match self {
            OutputV::StdOut => "stdout"@,
            OutputV::StdOutLog => "stdout"@,
            OutputV::Path(p) => p,
        }
    }
}

impl Output {
    /// How the output is named in messages.
    pub fn to_text(&self) -> (r: String)
        ensures
            r@ == self@.text(),
    {
        match self {
            Output::StdOut => copy_str("stdout"),
            Output::StdOutLog => copy_str("stdout"),
            Output::Path(p) => copy_str(p.as_str()),
        }
    }

    pub fn duplicate(&self) -> (r: Output)
        ensures
            r@ == self@,
    {
        match self {
            Output::StdOut => Output::StdOut,
            Output::StdOutLog => Output::StdOutLog,
            Output::Path(p) => Output::Path(copy_str(p.as_str())),
        }
    }
}

impl Default for Output {
    fn default() -> (r: Self)
        ensures
            r == Output::StdOut,
    {
        Output::StdOut
    }
}

/// Where input comes from: a path on disk, or a data URL.
#[derive(Debug, Clone, Ord, PartialOrd, Eq, PartialEq)]
pub enum Source {
    Path(String),
    Url(String),
}

/// Model of a [`Source`].
pub enum SourceV {
    Path(Seq<char>),
    Url(Seq<char>),
}

impl View for Source {
    type V = SourceV;

    open spec fn view(&self) -> SourceV {
        match self {
            Source::Path(p) => SourceV::Path(p@),
            Source::Url(u) => SourceV::Url(u@),
        }
    }
}

impl SourceV {
    /// The source that a text names: a data URL where it begins with
    /// `data:`, a path otherwise.
    pub open spec fn of_text(value: Seq<char>) -> SourceV {
        if "data:"@.is_prefix_of(value) {
            SourceV::Url(value)
        } else {
            SourceV::Path(value)
        }
    }

    pub open spec fn of_location(loc: LocationV) -> SourceV {
        match loc {
            LocationV::Path(p) => SourceV::Path(p),
            LocationV::DataURL(u) => SourceV::Url(u),
        }
    }

    pub open spec fn location(self) -> LocationV {
        match self {
            SourceV::Path(p) => LocationV::Path(p),
            SourceV::Url(u) => LocationV::DataURL(u),
        }
    }
}

/// The views of a list of sources.
pub open spec fn sources_view(s: Seq<Source>) -> Seq<SourceV> {
    s.map_values(|x: Source| x@)
}

/// What a data URL holds, as far as the pipeline reads it.
#[derive(Debug, Clone, PartialEq, Eq)]
pub struct DataUrlParts {
    /// The type of the media type, such as `text`.
    pub kind: String,
    /// The media type in full.
    pub media_type: String,
    pub body: Vec<u8>,
    /// The fragment, percent-encoded.
    pub fragment: Option<String>,
}

/// Why a data URL could not be read.
#[derive(Debug, Clone, PartialEq, Eq)]
pub enum DataUrlFailure {
    /// It is no data URL; with the crate's message.
    Url(String),
    /// Its body is no base64; with the crate's message.
    Base64(String),
}

/// Model of the outcome of reading a data URL: its parts, or which of the
/// two failures it was.
pub enum DataUrlV {
    Parts { kind: Seq<char>, media_type: Seq<char>, body: Seq<u8>, fragment: Option<Seq<char>> },
    NotUrl,
    NotBase64,
}

/// What the `data_url` crate makes of a text.
pub uninterp spec fn data_url_model(url: Seq<char>) -> DataUrlV;

/// The model of an outcome.
pub open spec fn data_url_view(r: Result<DataUrlParts, DataUrlFailure>) -> DataUrlV {
    match r {
        Ok(p) => DataUrlV::Parts {
            kind: p.kind@,
            media_type: p.media_type@,
            body: p.body@,
            fragment: match p.fragment {
                Some(f) => Some(f@),
                None => None,
            },
        },
        Err(DataUrlFailure::Url(_)) => DataUrlV::NotUrl,
        Err(DataUrlFailure::Base64(_)) => DataUrlV::NotBase64,
    }
}

/// Reads a data URL with `data_url::DataUrl::process` and decodes its
/// body with `DataUrl::decode_to_vec`. The outcome is a function of the
/// text alone: the media type as `DataUrl::mime_type` gives it, the
/// decoded body, and the fragment by `FragmentIdentifier::to_percent_encoded`;
/// or the crate's error.
#[verifier::external_body]
pub(crate) fn read_data_url(url: &str) -> (r: Result<DataUrlParts, DataUrlFailure>)
    ensures
        data_url_view(r) == data_url_model(url@),
{
    let u = data_url::DataUrl::process(url).map_err(|e| DataUrlFailure::Url(e.to_string()))?;
    let (body, fragment) = u.decode_to_vec().map_err(|e| DataUrlFailure::Base64(e.to_string()))?;
    Ok(
        DataUrlParts {
            kind: u.mime_type().type_.clone(),
            media_type: u.mime_type().to_string(),
            body,
            fragment: fragment.map(|f| f.to_percent_encoded()),
        },
    )
}

#[verifier::external_type_specification]
#[verifier::external_body]
pub struct ExIoError(std::io::Error);

/// The message of a `std::io::Error`, by its `Display`.
#[verifier::external_body]
pub(crate) fn io_error_text(e: &std::io::Error) -> (r: String) {
    e.to_string()
}

/// The kinds of error of the pipeline.
pub type AppErrorKind = AppError;

/// What can go wrong in the pipeline.
#[derive(Debug, Clone, PartialEq, Eq)]
pub enum AppError {
    ClapError(String),
    ExecutionFailed { reason: String, program: String },
    ExecutionIoFailed { source: String, program: String },
    ExecutionExited { program: String, code: i32 },
    BadExecArgs { program: String, args: String },
    FileNotFound(String),
    SendError,
    BadPath(String),
    BadUri(String),
    BadUrl(String),
    BadDataUrl(String),
    BadDataUrlFragment(String),
    BadDataUrlBase64(String),
    UnknownSchema(String),
    ReadError { source: String, path: String },
    WriteError { source: String, path: String },
    CopyError { source: String, source_path: String, target_path: String },
    UnknownLanguage(String),
    Lib(LibError),
    /// Leave, with this exit code.
    Exit(i32),
}

/// Model of an [`AppError`]. The messages of outside errors are left out.
pub enum AppErrorV {
    ClapError,
    ExecutionFailed { reason: Seq<char>, program: Seq<char> },
    ExecutionIoFailed { program: Seq<char> },
    ExecutionExited { program: Seq<char>, code: i32 },
    BadExecArgs { program: Seq<char>, args: Seq<char> },
    FileNotFound(Seq<char>),
    SendError,
    BadPath(Seq<char>),
    BadUri(Seq<char>),
    BadUrl(Seq<char>),
    BadDataUrl,
    BadDataUrlFragment(Seq<char>),
    BadDataUrlBase64,
    UnknownSchema(Seq<char>),
    ReadError { path: Seq<char> },
    WriteError { path: Seq<char> },
    CopyError { source_path: Seq<char>, target_path: Seq<char> },
    UnknownLanguage(Seq<char>),
    Lib(LibErrorV),
    Exit(i32),
}

impl View for AppError {
    type V = AppErrorV;

    open spec fn view(&self) -> AppErrorV {
        match self {
            AppError::ClapError(_) => AppErrorV::ClapError,
            AppError::ExecutionFailed { reason, program } => AppErrorV::ExecutionFailed {
                reason: reason@,
                program: program@,
            },
            AppError::ExecutionIoFailed { source, program } => AppErrorV::ExecutionIoFailed {
                program: program@,
            },
            AppError::ExecutionExited { program, code } => AppErrorV::ExecutionExited {
                program: program@,
                code: *code,
            },
            AppError::BadExecArgs { program, args } => AppErrorV::BadExecArgs {
                program: program@,
                args: args@,
            },
            AppError::FileNotFound(p) => AppErrorV::FileNotFound(p@),
            AppError::SendError => AppErrorV::SendError,
            AppError::BadPath(p) => AppErrorV::BadPath(p@),
            AppError::BadUri(u) => AppErrorV::BadUri(u@),
            AppError::BadUrl(u) => AppErrorV::BadUrl(u@),
            AppError::BadDataUrl(_) => AppErrorV::BadDataUrl,
            AppError::BadDataUrlFragment(u) => AppErrorV::BadDataUrlFragment(u@),
            AppError::BadDataUrlBase64(_) => AppErrorV::BadDataUrlBase64,
            AppError::UnknownSchema(s) => AppErrorV::UnknownSchema(s@),
            AppError::ReadError { source, path } => AppErrorV::ReadError { path: path@ },
            AppError::WriteError { source, path } => AppErrorV::WriteError { path: path@ },
            AppError::CopyError { source, source_path, target_path } => AppErrorV::CopyError {
                source_path: source_path@,
                target_path: target_path@,
            },
            AppError::UnknownLanguage(l) => AppErrorV::UnknownLanguage(l@),
            AppError::Lib(e) => AppErrorV::Lib(e@),
            AppError::Exit(c) => AppErrorV::Exit(*c),
        }
    }
}

/// Results of reading that can be told which path was read.
pub trait AppErrorPathCtx<T>: Sized {
    /// Whether reading went well.
    spec fn went_well(self) -> Option<T>;

    /// The result, with a failure turned into a `ReadError` for `path`.
    fn with_ctx(self, path: &str) -> (r: Result<T, AppError>)
        ensures
            match r {
                Ok(v) => self.went_well() == Some(v),
                Err(e) => self.went_well() is None && e@ == (AppErrorV::ReadError { path: path@ }),
            },
    ;
}

impl<T> AppErrorPathCtx<T> for Result<T, std::io::Error> {
    open spec fn went_well(self) -> Option<T> {
        match self {
            Ok(v) => Some(v),
            Err(_) => None,
        }
    }

    fn with_ctx(self, path: &str) -> (r: Result<T, AppError>) {
        match self {
            Ok(v) => Ok(v),
            Err(e) => Err(AppError::ReadError { source: io_error_text(&e), path: copy_str(path) }),
        }
    }
}

/// The id under which a source is known: the path of a path, and the
/// fragment of a data URL; a data URL that cannot be read or has no
/// fragment has none.
pub open spec fn source_id(s: SourceV) -> Result<Seq<char>, AppErrorV> {
    match s {
        SourceV::Path(p) => Ok(p),
        SourceV::Url(u) => match data_url_model(u) {
            DataUrlV::Parts { kind, media_type, body, fragment } => match fragment {
                Some(f) => Ok(f),
                None => Err(AppErrorV::BadDataUrlFragment(u)),
            },
            DataUrlV::NotUrl => Err(AppErrorV::BadDataUrl),
            DataUrlV::NotBase64 => Err(AppErrorV::BadDataUrlBase64),
        },
    }
}

impl Source {
    /// The source of the empty path.
    pub fn empty() -> (r: Self)
        ensures
            r@ == SourceV::Path(Seq::empty()),
    {
        Source::Path(String::new())
    }

    /// The source that a text names: a data URL where it begins with
    /// `data:`, a path otherwise.
    pub fn from_text(value: &str) -> (r: Self)
        ensures
            r@ == SourceV::of_text(value@),
    {
        if starts_with(value, "data:") {
            Source::Url(copy_str(value))
        } else {
            Source::Path(copy_str(value))
        }
    }

    pub fn from_location(value: Location) -> (r: Self)
        ensures
            r@ == SourceV::of_location(value@),
    {
        match value {
            Location::Path(p) => Source::Path(p),
            Location::DataURL(u) => Source::Url(u),
        }
    }

    pub fn into_location(self) -> (r: Location)
        ensures
            r@ == self@.location(),
    {
        match self {
            Source::Path(p) => Location::Path(p),
            Source::Url(u) => Location::DataURL(u),
        }
    }

    pub fn duplicate(&self) -> (r: Source)
        ensures
            r@ == self@,
    {
        match self {
            Source::Path(p) => Source::Path(copy_str(p.as_str())),
            Source::Url(u) => Source::Url(copy_str(u.as_str())),
        }
    }

    /// Whether this is the path `path`.
    pub fn is_path(&self, path: &str) -> (r: bool)
        ensures
            r == (self@ == SourceV::Path(path@)),
    {
        match self {
            Source::Path(p) => str_eq(p.as_str(), path),
            Source::Url(_) => false,
        }
    }

    /// The path of a path source; a data URL has none.
    pub fn into_path(self) -> (r: Option<String>)
        ensures
            match r {
                Some(p) => self@ == SourceV::Path(p@),
                None => self@ is Url,
            },
    {
        match self {
            Source::Path(p) => Some(p),
            Source::Url(_) => None,
        }
    }

    /// The id under which the source is known: the path, or the fragment
    /// of the data URL.
    pub fn path(&self) -> (r: Result<String, AppError>)
        ensures
            match r {
                Ok(id) => source_id(self@) == Ok::<Seq<char>, AppErrorV>(id@),
                Err(e) => source_id(self@) == Err::<Seq<char>, AppErrorV>(e@),
            },
    {
        match self {
            Source::Path(p) => Ok(copy_str(p.as_str())),
            Source::Url(u) => match read_data_url(u.as_str()) {
                Ok(parts) => match parts.fragment {
                    Some(f) => Ok(f),
                    None => Err(AppError::BadDataUrlFragment(copy_str(u.as_str()))),
                },
                Err(DataUrlFailure::Url(m)) => Err(AppError::BadDataUrl(m)),
                Err(DataUrlFailure::Base64(m)) => Err(AppError::BadDataUrlBase64(m)),
            },
        }
    }
}

/// Artifact produced by a task.
#[derive(Debug)]
pub enum Artifact {
    Path(String),
    Plaintext(String, String),
    Binary(String, Vec<u8>),
    Ast(Node),
    /// The node in this slot of the AST map.
    AstPointer(usize),
}

/// Model of an [`Artifact`].
pub enum ArtifactV {
    Path(Seq<char>),
    Plaintext(Seq<char>, Seq<char>),
    Binary(Seq<char>, Seq<u8>),
    Ast(NodeV),
    AstPointer(usize),
}

impl View for Artifact {
    type V = ArtifactV;

    open spec fn view(&self) -> ArtifactV {
        match self {
            Artifact::Path(p) => ArtifactV::Path(p@),
            Artifact::Plaintext(m, t) => ArtifactV::Plaintext(m@, t@),
            Artifact::Binary(m, b) => ArtifactV::Binary(m@, b@),
            Artifact::Ast(n) => ArtifactV::Ast(n@),
            Artifact::AstPointer(s) => ArtifactV::AstPointer(*s),
        }
    }
}

/// Map from URI to artifact.
pub type ArtifactMap = StrMap<Artifact>;

/// The models of a list of artifacts.
pub open spec fn artifacts_view(s: Seq<Artifact>) -> Seq<ArtifactV> {
    s.map_values(|a: Artifact| a@)
}

} // verus!
