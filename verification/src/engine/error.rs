//! errors produced by the generation engine.

use vstd::prelude::*;

use crate::text::{owned, push_str};

verus! {

#[derive(Debug, Clone)]
/// errors produced by the generation engine.
pub enum AethelError {
    /// no value pool exists for the given section and field pair.
    PoolNotFound { section: String, field: String },
    /// a rule required a previous result that is absent from the context history.
    MissingDependency(String),
    /// a user-defined or configuration error with a descriptive message.
    Custom(String),
}

/// the abstract value of an [`AethelError`].
pub enum AethelErrModel {
    PoolNotFound { section: Seq<char>, field: Seq<char> },
    MissingDependency(Seq<char>),
    Custom(Seq<char>),
}

impl View for AethelError {
    type V = AethelErrModel;

    open spec fn view(&self) -> AethelErrModel {
        match self {
            AethelError::PoolNotFound { section, field } => AethelErrModel::PoolNotFound { section: section@, field: field@ },
            AethelError::MissingDependency(k) => AethelErrModel::MissingDependency(k@),
            AethelError::Custom(m) => AethelErrModel::Custom(m@),
        }
    }
}

/// the human-readable message of an engine error.
pub open spec fn aethel_error_message(e: AethelErrModel) -> Seq<char> {
    match e {
        AethelErrModel::PoolNotFound { section, field } => "pool not found for section '"@ + section + "', field '"@
            + field + "'"@,
        AethelErrModel::MissingDependency(k) => "missing dependency in generation context: '"@ + k + "'"@,
        AethelErrModel::Custom(m) => m,
    }
}

impl AethelError {
    /// renders the human-readable message of this error.
    pub fn to_string(&self) -> (r: String)
        ensures
            r@ == aethel_error_message(self@),
    {
        match self {
            AethelError::PoolNotFound { section, field } => {
                let mut m = owned("pool not found for section '");
                push_str(&mut m, section.as_str());
                push_str(&mut m, "', field '");
                push_str(&mut m, field.as_str());
                push_str(&mut m, "'");
                m
            },
            AethelError::MissingDependency(key) => {
                let mut m = owned("missing dependency in generation context: '");
                push_str(&mut m, key.as_str());
                push_str(&mut m, "'");
                m
            },
            AethelError::Custom(msg) => msg.clone(),
        }
    }
}

} // verus!
