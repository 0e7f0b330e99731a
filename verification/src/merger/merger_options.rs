//! merge options and option-specific validation errors.

use vstd::prelude::*;

use crate::text::{owned, push_str};

verus! {

#[derive(Debug, Clone, Copy, PartialEq, Eq, Structural)]
/// configurable merge behaviour used by merge entrypoints.
pub struct MergeOptions {
    /// allows repeated `header.name` values across source files when enabled.
    pub identical_title_allowed: bool,
}

impl Default for MergeOptions {
    fn default() -> (r: Self)
        ensures
            r.identical_title_allowed,
    {
        Self { identical_title_allowed: true }
    }
}

#[derive(Debug, Clone)]
/// a merge option that a set of sources violates.
pub enum MergerOptionError {
    /// a header name repeats while repeated names are not allowed.
    IdenticalNameAllowed { header: String },
}

/// the message of a repeated-name violation.
pub open spec fn identical_name_message(header: Seq<char>) -> Seq<char> {
    "duplicate header.title '"@ + header + "' is not allowed when identical_names_allowed is false"@
}

impl MergerOptionError {
    /// the repeated header name.
    pub open spec fn header_spec(&self) -> Seq<char> {
        match self {
            MergerOptionError::IdenticalNameAllowed { header } => header@,
        }
    }

    /// renders the human-readable message of this error.
    pub fn to_string(&self) -> (r: String)
        ensures
            r@ == identical_name_message(self.header_spec()),
    {
        match self {
            MergerOptionError::IdenticalNameAllowed { header } => {
                let mut m = owned("duplicate header.title '");
                push_str(&mut m, header.as_str());
                push_str(&mut m, "' is not allowed when identical_names_allowed is false");
                m
            },
        }
    }
}

} // verus!
