//! weapon-target merge entrypoints.

use vstd::prelude::*;

use crate::loader::loader_weapon::WeaponLoader;
use crate::merge::{build_corpus_from_sources, merge_result_view, merge_typed_outcome, AethelCorpus, MergeError};
use crate::merger::utils::sources_view;
use crate::merger::MergeSourceInput;

pub use crate::merge::merge_weapon_files;

verus! {

/// assembles a weapon corpus from preloaded source payloads.
pub fn merge_weapon_sources(sources: &[MergeSourceInput<'_>]) -> (r: Result<AethelCorpus<WeaponLoader>, MergeError>)
    ensures
        merge_result_view(r) == merge_typed_outcome::<WeaponLoader>(sources_view(sources@)),
{
    build_corpus_from_sources::<WeaponLoader>(sources)
}

} // verus!
