//! error wrapper types used across merge entrypoints.

use vstd::prelude::*;

use crate::corpus::error::{error_message, CorpusLoaderError, LoadErrorModel};
use crate::merger::merger_options::{identical_name_message, MergerOptionError};

verus! {

#[derive(Debug, Clone)]
/// merge errors returned by the typed merge entrypoints.
pub enum MergerError {
    /// wraps loader-level parse/read/target errors.
    Loader(CorpusLoaderError),
    /// wraps merger option errors.
    MergerOption(MergerOptionError),
    /// reports invalid merge arguments, such as an empty file list.
    InvalidInput(String),
}

/// the abstract value of a [`MergerError`].
pub enum MergerErrModel {
    Loader(LoadErrorModel),
    /// a repeated header name, under options that forbid it.
    DuplicateName(Seq<char>),
    InvalidInput(Seq<char>),
}

impl View for MergerError {
    type V = MergerErrModel;

    open spec fn view(&self) -> MergerErrModel {
        match self {
            MergerError::Loader(e) => MergerErrModel::Loader(e@),
            MergerError::MergerOption(e) => MergerErrModel::DuplicateName(e.header_spec()),
            MergerError::InvalidInput(m) => MergerErrModel::InvalidInput(m@),
        }
    }
}

/// the human-readable message of a merge error.
pub open spec fn merger_error_message(e: MergerErrModel) -> Seq<char> {
    match e {
        MergerErrModel::Loader(l) => error_message(l),
        MergerErrModel::DuplicateName(h) => identical_name_message(h),
        MergerErrModel::InvalidInput(m) => m,
    }
}

impl MergerError {
    /// renders the human-readable message of this error.
    pub fn to_string(&self) -> (r: String)
        ensures
            r@ == merger_error_message(self@),
    {
        match self {
            MergerError::Loader(e) => e.to_string(),
            MergerError::MergerOption(e) => e.to_string(),
            MergerError::InvalidInput(m) => m.clone(),
        }
    }

    /// wraps a loader error.
    pub fn from_loader(e: CorpusLoaderError) -> (r: Self)
        ensures
            r@ == MergerErrModel::Loader(e@),
    {
        MergerError::Loader(e)
    }

    /// wraps an option error.
    pub fn from_option(e: MergerOptionError) -> (r: Self)
        ensures
            r@ == MergerErrModel::DuplicateName(e.header_spec()),
    {
        MergerError::MergerOption(e)
    }
}

} // verus!
