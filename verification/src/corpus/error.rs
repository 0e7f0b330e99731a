//! unified loader error types used across all load entrypoints.

use vstd::prelude::*;

use crate::corpus::types::{opt_view, Target};
use crate::text::{owned, push_str};

verus! {

#[derive(Debug, Clone, Copy, PartialEq, Eq, Structural)]
/// stable machine-readable loader error categories.
pub enum CorpusLoaderErrorKind {
    Read,
    Parse,
    TargetMismatch,
    OptionViolation,
    InvalidInput,
    RuleParamsMissing,
}

#[derive(Debug, Clone)]
/// errors returned by all load entrypoints.
pub enum CorpusLoaderError {
    /// file system read failure.
    ReadError {
        /// optional source file path if available.
        path: Option<String>,
        /// rendered io error.
        source: String,
    },
    /// toml deserialization or structural parse failure.
    ParseError {
        /// optional source file path if available.
        path: Option<String>,
        /// rendered parse error.
        source: String,
    },
    /// file target does not match the expected target.
    TargetMismatch { expected: Target, found: Target },
    /// a load option constraint was violated.
    OptionViolation(String),
    /// invalid arguments supplied to a load entrypoint.
    InvalidInput(String),
    /// rule has missing params
    RuleParamsMissing(String),
}

/// the abstract value of a [`CorpusLoaderError`].
pub enum LoadErrorModel {
    Read { path: Option<Seq<char>>, source: Seq<char> },
    Parse { path: Option<Seq<char>>, source: Seq<char> },
    TargetMismatch { expected: Seq<char>, found: Seq<char> },
    OptionViolation(Seq<char>),
    InvalidInput(Seq<char>),
    RuleParamsMissing(Seq<char>),
}

impl View for CorpusLoaderError {
    type V = LoadErrorModel;

    open spec fn view(&self) -> LoadErrorModel {
        match self {
            CorpusLoaderError::ReadError { path, source } => LoadErrorModel::Read {
                path: opt_view(*path),
                source: source@,
            },
            CorpusLoaderError::ParseError { path, source } => LoadErrorModel::Parse {
                path: opt_view(*path),
                source: source@,
            },
            CorpusLoaderError::TargetMismatch { expected, found } => LoadErrorModel::TargetMismatch {
                expected: expected@,
                found: found@,
            },
            CorpusLoaderError::OptionViolation(m) => LoadErrorModel::OptionViolation(m@),
            CorpusLoaderError::InvalidInput(m) => LoadErrorModel::InvalidInput(m@),
            CorpusLoaderError::RuleParamsMissing(m) => LoadErrorModel::RuleParamsMissing(m@),
        }
    }
}

/// the kind of an error value.
pub open spec fn error_kind(e: LoadErrorModel) -> CorpusLoaderErrorKind {
    match e {
        LoadErrorModel::Read { .. } => CorpusLoaderErrorKind::Read,
        LoadErrorModel::Parse { .. } => CorpusLoaderErrorKind::Parse,
        LoadErrorModel::TargetMismatch { .. } => CorpusLoaderErrorKind::TargetMismatch,
        LoadErrorModel::OptionViolation(_) => CorpusLoaderErrorKind::OptionViolation,
        LoadErrorModel::InvalidInput(_) => CorpusLoaderErrorKind::InvalidInput,
        LoadErrorModel::RuleParamsMissing(_) => CorpusLoaderErrorKind::RuleParamsMissing,
    }
}

/// the human-readable message of an error.
pub open spec fn error_message(e: LoadErrorModel) -> Seq<char> {
    match e {
        LoadErrorModel::Read { path, source } => match path {
            Some(p) => "unable to read toml file '"@ + p + "': "@ + source,
            None => "unable to read toml file: "@ + source,
        },
        LoadErrorModel::Parse { path, source } => match path {
            Some(p) => "unable to parse toml file '"@ + p + "': "@ + source,
            None => "unable to parse toml file: "@ + source,
        },
        LoadErrorModel::TargetMismatch { expected, found } => "target mismatch: expected '"@
            + expected + "', got '"@ + found + "'"@,
        LoadErrorModel::OptionViolation(m) => m,
        LoadErrorModel::InvalidInput(m) => m,
        LoadErrorModel::RuleParamsMissing(m) => m,
    }
}

impl CorpusLoaderError {
    /// returns the stable machine-readable kind for this error.
    pub fn kind(&self) -> (k: CorpusLoaderErrorKind)
        ensures
            k == error_kind(self@),
    {
        match self {
            CorpusLoaderError::ReadError { .. } => CorpusLoaderErrorKind::Read,
            CorpusLoaderError::ParseError { .. } => CorpusLoaderErrorKind::Parse,
            CorpusLoaderError::TargetMismatch { .. } => CorpusLoaderErrorKind::TargetMismatch,
            CorpusLoaderError::OptionViolation(_) => CorpusLoaderErrorKind::OptionViolation,
            CorpusLoaderError::InvalidInput(_) => CorpusLoaderErrorKind::InvalidInput,
            CorpusLoaderError::RuleParamsMissing(_) => CorpusLoaderErrorKind::RuleParamsMissing,
        }
    }

    /// renders the human-readable message of this error.
    pub fn to_string(&self) -> (r: String)
        ensures
            r@ == error_message(self@),
    {
        match self {
            CorpusLoaderError::ReadError { path, source } => match path {
                Some(p) => {
                    let mut m = owned("unable to read toml file '");
                    push_str(&mut m, p.as_str());
                    push_str(&mut m, "': ");
                    push_str(&mut m, source.as_str());
                    m
                },
                None => {
                    let mut m = owned("unable to read toml file: ");
                    push_str(&mut m, source.as_str());
                    m
                },
            },
            CorpusLoaderError::ParseError { path, source } => match path {
                Some(p) => {
                    let mut m = owned("unable to parse toml file '");
                    push_str(&mut m, p.as_str());
                    push_str(&mut m, "': ");
                    push_str(&mut m, source.as_str());
                    m
                },
                None => {
                    let mut m = owned("unable to parse toml file: ");
                    push_str(&mut m, source.as_str());
                    m
                },
            },
            CorpusLoaderError::TargetMismatch { expected, found } => {
                let mut m = owned("target mismatch: expected '");
                push_str(&mut m, expected.as_str());
                push_str(&mut m, "', got '");
                push_str(&mut m, found.as_str());
                push_str(&mut m, "'");
                m
            },
            CorpusLoaderError::OptionViolation(msg) => msg.clone(),
            CorpusLoaderError::InvalidInput(msg) => msg.clone(),
            CorpusLoaderError::RuleParamsMissing(msg) => msg.clone(),
        }
    }

    /// a read error for the given path, carrying the rendered io error.
    pub fn read_for_path(path: &str, source: String) -> (r: Self)
        ensures
            r@ == (LoadErrorModel::Read { path: Some(path@), source: source@ }),
    {
        CorpusLoaderError::ReadError { path: Some(owned(path)), source }
    }

    /// a parse error for the given path, carrying the rendered parse error.
    pub fn parse_for_path(path: &str, source: String) -> (r: Self)
        ensures
            r@ == (LoadErrorModel::Parse { path: Some(path@), source: source@ }),
    {
        CorpusLoaderError::ParseError { path: Some(owned(path)), source }
    }

    /// a copy with the same view.
    pub fn duplicate(&self) -> (r: Self)
        ensures
            r@ == self@,
    {
        match self {
            CorpusLoaderError::ReadError { path, source } => CorpusLoaderError::ReadError {
                path: crate::corpus::types::copy_opt(path),
                source: source.clone(),
            },
            CorpusLoaderError::ParseError { path, source } => CorpusLoaderError::ParseError {
                path: crate::corpus::types::copy_opt(path),
                source: source.clone(),
            },
            CorpusLoaderError::TargetMismatch { expected, found } => CorpusLoaderError::TargetMismatch {
                expected: expected.clone(),
                found: found.clone(),
            },
            CorpusLoaderError::OptionViolation(m) => CorpusLoaderError::OptionViolation(m.clone()),
            CorpusLoaderError::InvalidInput(m) => CorpusLoaderError::InvalidInput(m.clone()),
            CorpusLoaderError::RuleParamsMissing(m) => CorpusLoaderError::RuleParamsMissing(m.clone()),
        }
    }
}

} // verus!
