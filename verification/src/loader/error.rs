//! loader error types: the same errors that corpus loading reports.

pub use crate::corpus::error::{CorpusLoaderError as LoaderError, CorpusLoaderErrorKind as LoaderErrorKind};
