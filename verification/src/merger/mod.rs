//! typed merging of one target's sources into one corpus, with options and
//! an optional validation hook.

pub mod error;
pub mod merger_options;
pub mod utils;

use vstd::prelude::*;

use crate::corpus::error::LoadErrorModel;
use crate::corpus::{PendingModel, PendingSource};
use crate::loader::{AethelDoc, TargetedLoader};
use crate::merge::AethelCorpus;
use crate::merger::error::{MergerErrModel, MergerError};
use crate::merger::merger_options::MergeOptions;
use crate::merger::utils::{
    build_corpus_from_paths, build_corpus_from_paths_with_validator, build_corpus_from_sources,
    build_corpus_from_sources_with_validator, checked_corpus_asked, checked_corpus_outcome, checked_paths_asked,
    checked_paths_outcome, corpus_result_view,
    hook_answers, merge_options_allowed, pending_text, pending_view, verdicts_of,
    no_paths_message, paths_outcome, sources_view, spec_assemble_typed, typed_corpus_outcome,
};

verus! {

/// optional merge validation hook for user-defined policy checks.
pub trait MergeValidator<T> {
    /// validates one parsed document before it is added to the merged corpus.
    fn validate(&self, document: &AethelDoc<T>, source_path: &str) -> Result<(), MergerError>;
}

#[derive(Clone, Copy)]
/// source payload used by target-specific corpus builders.
pub struct MergeSourceInput<'a> {
    /// source path, or name used for loading.
    pub path: &'a str,
    /// raw source content used for parsing and hashing.
    pub raw: &'a str,
}

impl<'a> View for MergeSourceInput<'a> {
    type V = (Seq<char>, Seq<char>);

    open spec fn view(&self) -> (Seq<char>, Seq<char>) {
        (self.path@, self.raw@)
    }
}

/// merges one target file set into one typed corpus; each file is its text
/// or the error its read gave.
pub fn merge_files<T: TargetedLoader>(files: &[PendingSource], opts: Option<MergeOptions>) -> (r: Result<AethelCorpus<T>, MergerError>)
    ensures
        corpus_result_view(r) == paths_outcome::<T>(files@.map_values(|p: PendingSource| p@), merge_options_allowed(opts)),
        r matches Ok(c) ==> c.target == T::target_spec(),
{
    build_corpus_from_paths::<T>(files, opts)
}

/// merges one target file set using a custom validation hook; a rejection
/// by the hook is the only way its outcome differs from [`merge_files`].
pub fn merge_files_with_validator<T: TargetedLoader, V: MergeValidator<T>>(
    files: &[PendingSource],
    opts: Option<MergeOptions>,
    validator: &V,
) -> (r: Result<AethelCorpus<T>, MergerError>)
    ensures
        r is Ok ==> corpus_result_view(r) == paths_outcome::<T>(files@.map_values(|p: PendingSource| p@), merge_options_allowed(opts)),
        paths_outcome::<T>(files@.map_values(|p: PendingSource| p@), merge_options_allowed(opts)) is Err ==> r is Err,
        exists|read: Seq<MergeSourceInput<'_>>, given: Seq<AethelDoc<T>>, answers: Seq<Result<(), MergerError>>|
            #[trigger] hook_answers(validator, read, given, answers)
                && (read.len() > 0 ==> sources_view(read) == pending_view(files@).map_values(|p: PendingModel| pending_text(p)))
                && corpus_result_view(r) == checked_paths_outcome::<T>(
                pending_view(files@),
                merge_options_allowed(opts),
                verdicts_of(answers),
            ) && given.len() == checked_paths_asked::<T>(pending_view(files@), merge_options_allowed(opts), verdicts_of(answers)),
{
    build_corpus_from_paths_with_validator::<T, V>(files, opts, validator)
}

/// merges in-memory sources into one typed corpus.
pub fn merge_sources<T: TargetedLoader>(sources: &[MergeSourceInput<'_>], opts: Option<MergeOptions>) -> (r: Result<AethelCorpus<T>, MergerError>)
    ensures
        corpus_result_view(r) == typed_corpus_outcome::<T>(sources_view(sources@), merge_options_allowed(opts)),
        r matches Ok(c) ==> c.target == T::target_spec(),
{
    build_corpus_from_sources::<T>(sources, opts)
}

/// merges in-memory sources using a custom validation hook; a rejection by
/// the hook is the only way its outcome differs from [`merge_sources`].
pub fn merge_sources_with_validator<T: TargetedLoader, V: MergeValidator<T>>(
    sources: &[MergeSourceInput<'_>],
    opts: Option<MergeOptions>,
    validator: &V,
) -> (r: Result<AethelCorpus<T>, MergerError>)
    ensures
        r is Ok ==> corpus_result_view(r) == typed_corpus_outcome::<T>(sources_view(sources@), merge_options_allowed(opts)),
        typed_corpus_outcome::<T>(sources_view(sources@), merge_options_allowed(opts)) is Err ==> r is Err,
        exists|given: Seq<AethelDoc<T>>, answers: Seq<Result<(), MergerError>>|
            #[trigger] hook_answers(validator, sources@, given, answers) && corpus_result_view(r) == checked_corpus_outcome::<T>(
                sources_view(sources@),
                merge_options_allowed(opts),
                verdicts_of(answers),
            ) && given.len() == checked_corpus_asked::<T>(sources_view(sources@), merge_options_allowed(opts), verdicts_of(answers)),
{
    build_corpus_from_sources_with_validator::<T, V>(sources, opts, validator)
}

} // verus!
