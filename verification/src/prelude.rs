//! prelude exports for common aethellib workflows.

pub use crate::corpus::error::{CorpusLoaderError, CorpusLoaderErrorKind};
pub use crate::corpus::types::{Document, DocumentMetadata, Field, Section, Target};
pub use crate::corpus::utils::{CorpusLoaderOptions, LoadValidator};
pub use crate::corpus::{Corpus, CorpusBuilder, PendingSource, PooledValue, ValuePool, ValueProvenance};
pub use crate::engine::combinators::{fallback, pick, weighted_choice};
pub use crate::engine::error::AethelError;
pub use crate::engine::{ComposedValue, Engine, GenerationContext, InlineRule, Rule};
