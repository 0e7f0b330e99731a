//! central target-based merge orchestration for aethel documents.

pub mod merge_weapon;

use vstd::prelude::*;

use crate::corpus::error::{error_message, CorpusLoaderError, LoadErrorModel};
use crate::corpus::{first_index, lemma_first_index, lemma_first_index_none, PendingModel, PendingSource};
use crate::loader::loader_person::PersonLoader;
use crate::loader::loader_weapon::WeaponLoader;
use crate::loader::{
    read_doc_header, spec_doc_header, target_label, AthelDocHeader, HeaderModel, Target,
    TargetedLoader,
};
use crate::merger::error::{MergerErrModel, MergerError};
use crate::merger::utils::{
    assemble_typed, first_read_error, lemma_assemble_typed_paths, no_paths_message, pending_text, read_all, sources_view,
    spec_assemble_typed, NoopMergeValidator,
};
use crate::merger::MergeSourceInput;
use crate::text::{owned, push_str, str_eq};

verus! {

#[derive(Debug, Clone)]
/// one source document retained in a target corpus.
pub struct SourceAethelDoc<T> {
    /// unique id for this source within a corpus instance.
    pub source_id: String,
    /// deterministic hash derived from canonicalized document content and target.
    pub source_hash: String,
    /// source path used for loading.
    pub source_path: String,
    /// metadata from the source header.
    pub header: AthelDocHeader,
    /// source data body.
    pub data: T,
}

/// the abstract value of a [`SourceAethelDoc`].
pub struct SourceDocModel<M> {
    pub source_id: Seq<char>,
    pub source_hash: Seq<char>,
    pub source_path: Seq<char>,
    pub header: HeaderModel,
    pub data: M,
}

impl<T: View> View for SourceAethelDoc<T> {
    type V = SourceDocModel<T::V>;

    open spec fn view(&self) -> SourceDocModel<T::V> {
        SourceDocModel {
            source_id: self.source_id@,
            source_hash: self.source_hash@,
            source_path: self.source_path@,
            header: self.header@,
            data: self.data@,
        }
    }
}

/// the views of a list of source documents.
pub open spec fn docs_view<T: View>(ds: Seq<SourceAethelDoc<T>>) -> Seq<SourceDocModel<T::V>> {
    ds.map_values(|d: SourceAethelDoc<T>| d@)
}

#[derive(Debug, Clone)]
/// per-target corpus retaining all source documents and metadata.
pub struct AethelCorpus<T> {
    /// target represented by all source documents.
    pub target: Target,
    /// source documents in first-seen order.
    pub documents: Vec<SourceAethelDoc<T>>,
}

/// the abstract value of an [`AethelCorpus`].
pub struct CorpusModel<M> {
    pub target: Target,
    pub documents: Seq<SourceDocModel<M>>,
}

impl<T: View> View for AethelCorpus<T> {
    type V = CorpusModel<T::V>;

    open spec fn view(&self) -> CorpusModel<T::V> {
        CorpusModel { target: self.target, documents: docs_view(self.documents@) }
    }
}

impl<T: View> AethelCorpus<T> {
    /// finds the first source document with the given source id.
    pub fn find_source(&self, source_id: &str) -> (r: Option<&SourceAethelDoc<T>>)
        ensures
            match first_index(docs_view(self.documents@), has_source_id::<T::V>(source_id@)) {
                Some(i) => r is Some && r->0@ == docs_view(self.documents@)[i],
                None => r is None,
            },
    {
        let ghost ds = docs_view(self.documents@);
        let ghost p = has_source_id::<T::V>(source_id@);
        let mut i: usize = 0;
        while i < self.documents.len()
            invariant
                i <= self.documents@.len(),
                ds == docs_view(self.documents@),
                p == has_source_id::<T::V>(source_id@),
                forall|j: int| 0 <= j < i ==> !p(#[trigger] ds[j]),
            decreases self.documents@.len() - i,
        {
            if str_eq(self.documents[i].source_id.as_str(), source_id) {
                proof {
                    assert(p(ds[i as int]));
                    lemma_first_index(ds, p, i as int);
                }
                return Some(&self.documents[i]);
            }
            proof {
                assert(!p(ds[i as int]));
            }
            i = i + 1;
        }
        proof {
            lemma_first_index_none(ds, p);
        }
        None
    }
}

/// whether a document has the source id `id`.
pub open spec fn has_source_id<M>(id: Seq<char>) -> spec_fn(SourceDocModel<M>) -> bool {
    |d: SourceDocModel<M>| d.source_id == id
}

} // verus!

verus! {

#[derive(Debug, Clone)]
/// merge errors returned by the module-level merge entrypoint.
pub enum MergeError {
    /// wraps loader-level parse/read/target errors.
    Loader(CorpusLoaderError),
    /// reports invalid merge arguments, such as an empty file list.
    InvalidInput(String),
    /// reports a target found in input files that has no registered merger yet.
    UnsupportedTarget(Target),
}

/// the abstract value of a [`MergeError`].
pub enum MergeErrModel {
    Loader(LoadErrorModel),
    InvalidInput(Seq<char>),
    UnsupportedTarget(Target),
}

impl View for MergeError {
    type V = MergeErrModel;

    open spec fn view(&self) -> MergeErrModel {
        match self {
            MergeError::Loader(e) => MergeErrModel::Loader(e@),
            MergeError::InvalidInput(m) => MergeErrModel::InvalidInput(m@),
            MergeError::UnsupportedTarget(t) => MergeErrModel::UnsupportedTarget(*t),
        }
    }
}

/// the human-readable message of a merge error.
pub open spec fn merge_error_message(e: MergeErrModel) -> Seq<char> {
    match e {
        MergeErrModel::Loader(l) => error_message(l),
        MergeErrModel::InvalidInput(m) => m,
        MergeErrModel::UnsupportedTarget(t) => "unsupported merge target: "@ + target_label(t),
    }
}

impl MergeError {
    /// wraps a loader error.
    pub fn from_loader(e: CorpusLoaderError) -> (r: Self)
        ensures
            r@ == MergeErrModel::Loader(e@),
    {
        MergeError::Loader(e)
    }

    /// renders the human-readable message of this error.
    pub fn to_string(&self) -> (r: String)
        ensures
            r@ == merge_error_message(self@),
    {
        match self {
            MergeError::Loader(e) => e.to_string(),
            MergeError::InvalidInput(m) => m.clone(),
            MergeError::UnsupportedTarget(t) => {
                let mut m = owned("unsupported merge target: ");
                push_str(&mut m, t.label());
                m
            },
        }
    }
}

#[derive(Debug)]
/// merged document variants keyed by target type.
pub enum MergedAethelDoc {
    /// corpus output for person-target files.
    Person(AethelCorpus<PersonLoader>),
    /// corpus output for weapon-target files.
    Weapon(AethelCorpus<WeaponLoader>),
}

/// the abstract value of a [`MergedAethelDoc`].
pub enum MergedModel {
    Person(CorpusModel<crate::loader::loader_person::PersonModel>),
    Weapon(CorpusModel<crate::loader::loader_weapon::WeaponModel>),
}

impl View for MergedAethelDoc {
    type V = MergedModel;

    open spec fn view(&self) -> MergedModel {
        match self {
            MergedAethelDoc::Person(c) => MergedModel::Person(c@),
            MergedAethelDoc::Weapon(c) => MergedModel::Weapon(c@),
        }
    }
}

/// the target a merged variant stands for.
pub open spec fn merged_target(m: MergedModel) -> Target {
    match m {
        MergedModel::Person(_) => Target::Person,
        MergedModel::Weapon(_) => Target::Weapon,
    }
}

impl MergedAethelDoc {
    /// returns the target represented by this merged document variant.
    pub fn target(&self) -> (t: Target)
        ensures
            t == merged_target(self@),
    {
        match self {
            MergedAethelDoc::Person(_) => Target::Person,
            MergedAethelDoc::Weapon(_) => Target::Weapon,
        }
    }

    /// returns a shared reference to a person corpus when this variant is person.
    pub fn as_person(&self) -> (r: Option<&AethelCorpus<PersonLoader>>)
        ensures
            match self {
                MergedAethelDoc::Person(c) => r == Some(c),
                MergedAethelDoc::Weapon(_) => r is None,
            },
    {
        match self {
            MergedAethelDoc::Person(corpus) => Some(corpus),
            MergedAethelDoc::Weapon(_) => None,
        }
    }

    /// consumes this value and returns a person corpus when this variant is person.
    pub fn into_person(self) -> (r: Option<AethelCorpus<PersonLoader>>)
        ensures
            match self {
                MergedAethelDoc::Person(c) => r == Some(c),
                MergedAethelDoc::Weapon(_) => r is None,
            },
    {
        match self {
            MergedAethelDoc::Person(corpus) => Some(corpus),
            MergedAethelDoc::Weapon(_) => None,
        }
    }

    /// returns a shared reference to a weapon corpus when this variant is weapon.
    pub fn as_weapon(&self) -> (r: Option<&AethelCorpus<WeaponLoader>>)
        ensures
            match self {
                MergedAethelDoc::Weapon(c) => r == Some(c),
                MergedAethelDoc::Person(_) => r is None,
            },
    {
        match self {
            MergedAethelDoc::Person(_) => None,
            MergedAethelDoc::Weapon(corpus) => Some(corpus),
        }
    }

    /// consumes this value and returns a weapon corpus when this variant is weapon.
    pub fn into_weapon(self) -> (r: Option<AethelCorpus<WeaponLoader>>)
        ensures
            match self {
                MergedAethelDoc::Weapon(c) => r == Some(c),
                MergedAethelDoc::Person(_) => r is None,
            },
    {
        match self {
            MergedAethelDoc::Person(_) => None,
            MergedAethelDoc::Weapon(corpus) => Some(corpus),
        }
    }
}

// ─── typed corpora ───────────────────────────────────────────────────────────

/// with repeated names allowed, assembly only fails with loader errors.
proof fn lemma_allowed_errors_are_loader<T: TargetedLoader>(srcs: Seq<(Seq<char>, Seq<char>)>, label: Seq<char>)
    ensures
        spec_assemble_typed::<T>(srcs, true, label) matches Err(e) ==> e is Loader,
    decreases srcs.len(),
{
    if srcs.len() > 0 {
        lemma_allowed_errors_are_loader::<T>(srcs.drop_last(), label);
    }
}

/// the corpus that the sources give for loader `T` (the hash keyed by the
/// target's variant name), or the error.
pub open spec fn merge_typed_outcome<T: TargetedLoader>(srcs: Seq<(Seq<char>, Seq<char>)>) -> Result<CorpusModel<T::V>, MergeErrModel> {
    if srcs.len() == 0 {
        Err(MergeErrModel::InvalidInput(no_paths_message()))
    } else {
        match spec_assemble_typed::<T>(srcs, true, target_label(T::target_spec())) {
            Err(e) => Err(MergeErrModel::Loader(e->Loader_0)),
            Ok(ds) => Ok(CorpusModel { target: T::target_spec(), documents: ds }),
        }
    }
}

/// the view of a typed merge outcome.
pub open spec fn merge_result_view<T: View>(r: Result<AethelCorpus<T>, MergeError>) -> Result<CorpusModel<T::V>, MergeErrModel> {
    match r {
        Ok(c) => Ok(c@),
        Err(e) => Err(e@),
    }
}

/// assembles a target corpus from already-loaded source payloads.
pub fn build_corpus_from_sources<T: TargetedLoader>(sources: &[MergeSourceInput<'_>]) -> (r: Result<AethelCorpus<T>, MergeError>)
    ensures
        merge_result_view(r) == merge_typed_outcome::<T>(sources_view(sources@)),
{
    if sources.len() == 0 {
        return Err(MergeError::InvalidInput(owned("at least one path is required for merge")));
    }
    let target = T::target();
    proof {
        lemma_allowed_errors_are_loader::<T>(sources_view(sources@), target_label(target));
    }
    match assemble_typed::<T, NoopMergeValidator>(sources, true, None, target.label()) {
        Ok(documents) => Ok(AethelCorpus { target, documents }),
        Err(MergerError::Loader(e)) => Err(MergeError::Loader(e)),
        Err(MergerError::MergerOption(e)) => Err(MergeError::InvalidInput(e.to_string())),
        Err(MergerError::InvalidInput(m)) => Err(MergeError::InvalidInput(m)),
    }
}

/// the outcome of merging files for loader `T`: every file is read before
/// any is parsed.
pub open spec fn merge_paths_outcome<T: TargetedLoader>(files: Seq<PendingModel>) -> Result<CorpusModel<T::V>, MergeErrModel> {
    if files.len() == 0 {
        Err(MergeErrModel::InvalidInput(no_paths_message()))
    } else {
        match first_read_error(files) {
            Some(e) => Err(MergeErrModel::Loader(e)),
            None => merge_typed_outcome::<T>(files.map_values(|p: PendingModel| pending_text(p))),
        }
    }
}

/// loads and validates source files for one target, then assembles a corpus.
pub fn build_corpus_from_paths<T: TargetedLoader>(files: &[PendingSource]) -> (r: Result<AethelCorpus<T>, MergeError>)
    ensures
        merge_result_view(r) == merge_paths_outcome::<T>(files@.map_values(|p: PendingSource| p@)),
{
    if files.len() == 0 {
        return Err(MergeError::InvalidInput(owned("at least one path is required for merge")));
    }
    let sources = match read_all(files) {
        Ok(s) => s,
        Err(e) => {
            return Err(MergeError::Loader(e));
        },
    };
    build_corpus_from_sources::<T>(sources.as_slice())
}

/// assembles a weapon corpus while preserving file-specific metadata.
pub fn merge_weapon_files(files: &[PendingSource]) -> (r: Result<AethelCorpus<WeaponLoader>, MergeError>)
    ensures
        merge_result_view(r) == merge_paths_outcome::<WeaponLoader>(files@.map_values(|p: PendingSource| p@)),
{
    build_corpus_from_paths::<WeaponLoader>(files)
}

/// assembles a person corpus while preserving file-specific metadata.
pub fn merge_person_files(files: &[PendingSource]) -> (r: Result<AethelCorpus<PersonLoader>, MergeError>)
    ensures
        merge_result_view(r) == merge_paths_outcome::<PersonLoader>(files@.map_values(|p: PendingSource| p@)),
{
    build_corpus_from_paths::<PersonLoader>(files)
}

} // verus!

verus! {

// ─── mixed-target merging ────────────────────────────────────────────────────

/// one parsed input: its path, text and header target.
pub type MergeInputModel = (Seq<char>, Seq<char>, Target);

/// the inputs of a mixed merge: each file read and its header parsed, in
/// order, or the first read or parse error.
pub open spec fn spec_merge_inputs(files: Seq<PendingModel>) -> Result<Seq<MergeInputModel>, LoadErrorModel>
    decreases files.len(),
{
    if files.len() == 0 {
        Ok(Seq::<MergeInputModel>::empty())
    } else {
        match spec_merge_inputs(files.drop_last()) {
            Err(e) => Err(e),
            Ok(ins) => match files.last() {
                PendingModel::Unreadable { path, message } => Err(LoadErrorModel::Read { path: Some(path), source: message }),
                PendingModel::Str { name, raw } => match spec_doc_header(name, raw) {
                    Err(e) => Err(e),
                    Ok(h) => Ok(ins.push((name, raw, h.target))),
                },
            },
        }
    }
}

/// whether some input names the unsupported target.
pub open spec fn has_unsupported(ins: Seq<MergeInputModel>) -> bool {
    exists|i: int| 0 <= i < ins.len() && #[trigger] ins[i].2 == Target::Unsupported
}

/// the `(path, text)` pairs of the inputs with target `t`, in input order.
pub open spec fn group_of(ins: Seq<MergeInputModel>, t: Target) -> Seq<(Seq<char>, Seq<char>)>
    decreases ins.len(),
{
    if ins.len() == 0 {
        Seq::<(Seq<char>, Seq<char>)>::empty()
    } else if ins.last().2 == t {
        group_of(ins.drop_last(), t).push((ins.last().0, ins.last().1))
    } else {
        group_of(ins.drop_last(), t)
    }
}

/// the targets of the inputs, each once, in the order they first appear.
pub open spec fn first_seen_targets(ins: Seq<MergeInputModel>) -> Seq<Target>
    decreases ins.len(),
{
    if ins.len() == 0 {
        Seq::<Target>::empty()
    } else {
        let prev = first_seen_targets(ins.drop_last());
        if prev.contains(ins.last().2) {
            prev
        } else {
            prev.push(ins.last().2)
        }
    }
}

/// the merged corpus of the inputs with target `t`.
pub open spec fn merge_group(ins: Seq<MergeInputModel>, t: Target) -> Result<MergedModel, MergeErrModel> {
    match t {
        Target::Person => match merge_typed_outcome::<PersonLoader>(group_of(ins, t)) {
            Err(e) => Err(e),
            Ok(c) => Ok(MergedModel::Person(c)),
        },
        Target::Weapon => match merge_typed_outcome::<WeaponLoader>(group_of(ins, t)) {
            Err(e) => Err(e),
            Ok(c) => Ok(MergedModel::Weapon(c)),
        },
        Target::Unsupported => Err(MergeErrModel::UnsupportedTarget(Target::Unsupported)),
    }
}

/// the merged corpora for the targets in `order`, or the first error.
pub open spec fn merge_groups(ins: Seq<MergeInputModel>, order: Seq<Target>) -> Result<Seq<MergedModel>, MergeErrModel>
    decreases order.len(),
{
    if order.len() == 0 {
        Ok(Seq::<MergedModel>::empty())
    } else {
        match merge_groups(ins, order.drop_last()) {
            Err(e) => Err(e),
            Ok(ms) => match merge_group(ins, order.last()) {
                Err(e) => Err(e),
                Ok(m) => Ok(ms.push(m)),
            },
        }
    }
}

/// the outcome of a mixed merge: inputs grouped by header target in
/// first-seen order, each group merged by its target's loader.
pub open spec fn spec_merge_from_files(files: Seq<PendingModel>) -> Result<Seq<MergedModel>, MergeErrModel> {
    if files.len() == 0 {
        Err(MergeErrModel::InvalidInput(no_paths_message()))
    } else {
        match spec_merge_inputs(files) {
            Err(e) => Err(MergeErrModel::Loader(e)),
            Ok(ins) => if has_unsupported(ins) {
                Err(MergeErrModel::UnsupportedTarget(Target::Unsupported))
            } else {
                merge_groups(ins, first_seen_targets(ins))
            },
        }
    }
}

/// the view of a mixed merge outcome.
pub open spec fn merged_result_view(r: Result<Vec<MergedAethelDoc>, MergeError>) -> Result<Seq<MergedModel>, MergeErrModel> {
    match r {
        Ok(ms) => Ok(ms@.map_values(|m: MergedAethelDoc| m@)),
        Err(e) => Err(e@),
    }
}

/// the view of parsed inputs.
pub open spec fn inputs_view(v: Seq<(MergeSourceInput<'_>, Target)>) -> Seq<MergeInputModel> {
    v.map_values(|x: (MergeSourceInput<'_>, Target)| (x.0.path@, x.0.raw@, x.1))
}

proof fn lemma_inputs_error_sticks(fs: Seq<PendingModel>, n: int)
    requires
        0 <= n <= fs.len(),
        spec_merge_inputs(fs.take(n)) is Err,
    ensures
        spec_merge_inputs(fs) == spec_merge_inputs(fs.take(n)),
    decreases fs.len() - n,
{
    if n < fs.len() {
        assert(fs.take(n + 1).drop_last() =~= fs.take(n));
        lemma_inputs_error_sticks(fs, n + 1);
    } else {
        assert(fs.take(n) =~= fs);
    }
}

/// parses source files once so dispatch and target ingestion share the same payload.
fn parse_merge_inputs<'a>(files: &'a [PendingSource]) -> (r: Result<Vec<(MergeSourceInput<'a>, Target)>, CorpusLoaderError>)
    ensures
        match r {
            Ok(v) => spec_merge_inputs(files@.map_values(|p: PendingSource| p@)) == Ok::<Seq<MergeInputModel>, LoadErrorModel>(inputs_view(v@)),
            Err(e) => spec_merge_inputs(files@.map_values(|p: PendingSource| p@)) == Err::<Seq<MergeInputModel>, LoadErrorModel>(e@),
        },
{
    let ghost fs = files@.map_values(|p: PendingSource| p@);
    let mut out: Vec<(MergeSourceInput<'a>, Target)> = Vec::new();
    let mut i: usize = 0;
    proof {
        assert(fs.take(0) =~= Seq::<PendingModel>::empty());
        assert(inputs_view(out@) =~= Seq::<MergeInputModel>::empty());
    }
    while i < files.len()
        invariant
            i <= files@.len(),
            fs == files@.map_values(|p: PendingSource| p@),
            spec_merge_inputs(fs.take(i as int)) == Ok::<Seq<MergeInputModel>, LoadErrorModel>(inputs_view(out@)),
        decreases files@.len() - i,
    {
        proof {
            assert(fs.take(i as int + 1).drop_last() =~= fs.take(i as int));
            assert(fs.take(i as int + 1).last() == files@[i as int]@);
        }
        match &files[i] {
            PendingSource::Unreadable { path, message } => {
                proof {
                    lemma_inputs_error_sticks(fs, i as int + 1);
                }
                return Err(CorpusLoaderError::read_for_path(path.as_str(), message.clone()));
            },
            PendingSource::Str { name, raw } => {
                let (header, _doc) = match read_doc_header(name.as_str(), raw.as_str()) {
                    Ok(p) => p,
                    Err(e) => {
                        proof {
                            lemma_inputs_error_sticks(fs, i as int + 1);
                        }
                        return Err(e);
                    },
                };
                let ghost prev = out@;
                out.push((MergeSourceInput { path: name.as_str(), raw: raw.as_str() }, header.target));
                proof {
                    assert(inputs_view(out@) =~= inputs_view(prev).push((name@, raw@, header.target)));
                }
            },
        }
        i = i + 1;
    }
    proof {
        assert(fs.take(files@.len() as int) =~= fs);
    }
    Ok(out)
}

/// a pushed sequence contains what the old one did, and the new element.
proof fn lemma_push_contains<A>(s: Seq<A>, a: A, x: A)
    ensures
        s.push(a).contains(x) <==> (s.contains(x) || x == a),
{
    if s.push(a).contains(x) {
        let k = choose|k: int| 0 <= k < s.push(a).len() && s.push(a)[k] == x;
        if k < s.len() {
            assert(s[k] == x);
        }
    }
    if s.contains(x) {
        let k = choose|k: int| 0 <= k < s.len() && s[k] == x;
        assert(s.push(a)[k] == x);
    }
    assert(s.push(a)[s.len() as int] == a);
}

/// a target is among the first-seen targets exactly when some input has it.
proof fn lemma_first_seen_contains(ins: Seq<MergeInputModel>, t: Target)
    ensures
        first_seen_targets(ins).contains(t) <==> exists|k: int| 0 <= k < ins.len() && #[trigger] ins[k].2 == t,
    decreases ins.len(),
{
    if ins.len() > 0 {
        let p = ins.drop_last();
        lemma_first_seen_contains(p, t);
        lemma_push_contains(first_seen_targets(p), ins.last().2, t);
        if exists|k: int| 0 <= k < ins.len() && #[trigger] ins[k].2 == t {
            let k = choose|k: int| 0 <= k < ins.len() && #[trigger] ins[k].2 == t;
            if k < ins.len() - 1 {
                assert(p[k].2 == t);
            }
        }
        if exists|k: int| 0 <= k < p.len() && #[trigger] p[k].2 == t {
            let k = choose|k: int| 0 <= k < p.len() && #[trigger] p[k].2 == t;
            assert(ins[k].2 == t);
        }
    }
}

/// merges a mixed list of toml files into one merged document per discovered target.
///
/// files are first grouped by `header.target` while preserving first-seen target order,
/// then dispatched to each target-specific merger.
pub fn merge_from_files(files: &[PendingSource]) -> (r: Result<Vec<MergedAethelDoc>, MergeError>)
    ensures
        merged_result_view(r) == spec_merge_from_files(files@.map_values(|p: PendingSource| p@)),
{
    if files.len() == 0 {
        return Err(MergeError::InvalidInput(owned("at least one path is required for merge")));
    }
    let inputs = match parse_merge_inputs(files) {
        Ok(v) => v,
        Err(e) => {
            return Err(MergeError::Loader(e));
        },
    };
    let ghost ins = inputs_view(inputs@);
    let mut person_sources: Vec<MergeSourceInput<'_>> = Vec::new();
    let mut weapon_sources: Vec<MergeSourceInput<'_>> = Vec::new();
    let mut target_order: Vec<Target> = Vec::new();
    let mut seen_person = false;
    let mut seen_weapon = false;
    let mut i: usize = 0;
    proof {
        assert(ins.take(0) =~= Seq::<MergeInputModel>::empty());
        assert(sources_view(person_sources@) =~= Seq::<(Seq<char>, Seq<char>)>::empty());
        assert(sources_view(weapon_sources@) =~= Seq::<(Seq<char>, Seq<char>)>::empty());
        assert(target_order@ =~= Seq::<Target>::empty());
    }
    while i < inputs.len()
        invariant
            i <= inputs@.len(),
            ins == inputs_view(inputs@),
            files@.len() > 0,
            spec_merge_inputs(files@.map_values(|p: PendingSource| p@)) == Ok::<Seq<MergeInputModel>, LoadErrorModel>(ins),
            !has_unsupported(ins.take(i as int)),
            sources_view(person_sources@) == group_of(ins.take(i as int), Target::Person),
            sources_view(weapon_sources@) == group_of(ins.take(i as int), Target::Weapon),
            target_order@ == first_seen_targets(ins.take(i as int)),
            seen_person == first_seen_targets(ins.take(i as int)).contains(Target::Person),
            seen_weapon == first_seen_targets(ins.take(i as int)).contains(Target::Weapon),
        decreases inputs@.len() - i,
    {
        let ghost pre = ins.take(i as int);
        let ghost post = ins.take(i as int + 1);
        proof {
            assert(post.drop_last() =~= pre);
            assert(post.last() == ins[i as int]);
        }
        let (src, target) = inputs[i];
        let ghost pp = person_sources@;
        let ghost wp = weapon_sources@;
        match target {
            Target::Person => {
                person_sources.push(src);
                proof {
                    assert(sources_view(person_sources@) =~= sources_view(pp).push(src@));
                }
            },
            Target::Weapon => {
                weapon_sources.push(src);
                proof {
                    assert(sources_view(weapon_sources@) =~= sources_view(wp).push(src@));
                }
            },
            Target::Unsupported => {
                proof {
                    assert(ins[i as int].2 == Target::Unsupported);
                }
                return Err(MergeError::UnsupportedTarget(Target::Unsupported));
            },
        }
        match target {
            Target::Person => {
                if !seen_person {
                    seen_person = true;
                    target_order.push(Target::Person);
                }
            },
            Target::Weapon => {
                if !seen_weapon {
                    seen_weapon = true;
                    target_order.push(Target::Weapon);
                }
            },
            Target::Unsupported => {},
        }
        proof {
            assert(!has_unsupported(post)) by {
                if has_unsupported(post) {
                    let k = choose|k: int| 0 <= k < post.len() && #[trigger] post[k].2 == Target::Unsupported;
                    if k < i {
                        assert(pre[k].2 == Target::Unsupported);
                    }
                }
            }
            lemma_push_contains(first_seen_targets(pre), target, Target::Person);
            lemma_push_contains(first_seen_targets(pre), target, Target::Weapon);
        }
        i = i + 1;
    }
    proof {
        assert(ins.take(inputs@.len() as int) =~= ins);
    }
    assert(spec_merge_from_files(files@.map_values(|p: PendingSource| p@)) == merge_groups(ins, first_seen_targets(ins)));
    let mut merged_docs: Vec<MergedAethelDoc> = Vec::new();
    let mut j: usize = 0;
    proof {
        assert(target_order@.take(0) =~= Seq::<Target>::empty());
        assert(merged_docs@.map_values(|m: MergedAethelDoc| m@) =~= Seq::<MergedModel>::empty());
    }
    while j < target_order.len()
        invariant
            j <= target_order@.len(),
            target_order@ == first_seen_targets(ins),
            spec_merge_from_files(files@.map_values(|p: PendingSource| p@)) == merge_groups(ins, first_seen_targets(ins)),
            sources_view(person_sources@) == group_of(ins, Target::Person),
            sources_view(weapon_sources@) == group_of(ins, Target::Weapon),
            merge_groups(ins, target_order@.take(j as int)) == Ok::<Seq<MergedModel>, MergeErrModel>(
                merged_docs@.map_values(|m: MergedAethelDoc| m@),
            ),
        decreases target_order@.len() - j,
    {
        proof {
            assert(target_order@.take(j as int + 1).drop_last() =~= target_order@.take(j as int));
            assert(target_order@.take(j as int + 1).last() == target_order@[j as int]);
        }
        let ghost prev = merged_docs@;
        match target_order[j] {
            Target::Person => {
                let merged = match build_corpus_from_sources::<PersonLoader>(person_sources.as_slice()) {
                    Ok(c) => c,
                    Err(e) => {
                        proof {
                            lemma_groups_error_sticks(ins, target_order@, j as int + 1);
                        }
                        return Err(e);
                    },
                };
                merged_docs.push(MergedAethelDoc::Person(merged));
            },
            Target::Weapon => {
                let merged = match build_corpus_from_sources::<WeaponLoader>(weapon_sources.as_slice()) {
                    Ok(c) => c,
                    Err(e) => {
                        proof {
                            lemma_groups_error_sticks(ins, target_order@, j as int + 1);
                        }
                        return Err(e);
                    },
                };
                merged_docs.push(MergedAethelDoc::Weapon(merged));
            },
            Target::Unsupported => {
                proof {
                    lemma_groups_error_sticks(ins, target_order@, j as int + 1);
                }
                return Err(MergeError::UnsupportedTarget(Target::Unsupported));
            },
        }
        proof {
            assert(merged_docs@.map_values(|m: MergedAethelDoc| m@) =~= prev.map_values(|m: MergedAethelDoc| m@).push(
                merged_docs@.last()@,
            ));
        }
        j = j + 1;
    }
    proof {
        assert(target_order@.take(target_order@.len() as int) =~= target_order@);
    }
    Ok(merged_docs)
}

proof fn lemma_groups_error_sticks(ins: Seq<MergeInputModel>, order: Seq<Target>, n: int)
    requires
        0 <= n <= order.len(),
        merge_groups(ins, order.take(n)) is Err,
    ensures
        merge_groups(ins, order) == merge_groups(ins, order.take(n)),
    decreases order.len() - n,
{
    if n < order.len() {
        assert(order.take(n + 1).drop_last() =~= order.take(n));
        lemma_groups_error_sticks(ins, order, n + 1);
    } else {
        assert(order.take(n) =~= order);
    }
}

} // verus!

verus! {

/// the paths of a merged corpus's documents, in order.
pub open spec fn merged_paths(m: MergedModel) -> Seq<Seq<char>> {
    match m {
        MergedModel::Person(c) => c.documents.map_values(|d: SourceDocModel<crate::loader::loader_person::PersonModel>| d.source_path),
        MergedModel::Weapon(c) => c.documents.map_values(|d: SourceDocModel<crate::loader::loader_weapon::WeaponModel>| d.source_path),
    }
}

/// the parsed inputs of a mixed merge whose files all read and parse.
pub open spec fn merge_inputs_of(files: Seq<PendingModel>) -> Seq<MergeInputModel> {
    spec_merge_inputs(files)->Ok_0
}

proof fn lemma_merge_groups_shape(ins: Seq<MergeInputModel>, order: Seq<Target>)
    requires
        merge_groups(ins, order) is Ok,
    ensures
        merge_groups(ins, order)->Ok_0.len() == order.len(),
        forall|i: int| 0 <= i < order.len() ==> {
            &&& merged_target(#[trigger] merge_groups(ins, order)->Ok_0[i]) == order[i]
            &&& merged_paths(merge_groups(ins, order)->Ok_0[i]) == group_of(ins, order[i]).map_values(
                |s: (Seq<char>, Seq<char>)| s.0,
            )
        },
    decreases order.len(),
{
    if order.len() > 0 {
        lemma_merge_groups_shape(ins, order.drop_last());
        let ms = merge_groups(ins, order)->Ok_0;
        let ps = merge_groups(ins, order.drop_last())->Ok_0;
        let t = order.last();
        let g = group_of(ins, t);
        let m = merge_group(ins, t)->Ok_0;
        assert(ms == ps.push(m));
        assert(merged_paths(m) =~= g.map_values(|s: (Seq<char>, Seq<char>)| s.0)) by {
            match t {
                Target::Person => {
                    lemma_assemble_typed_paths::<PersonLoader>(g, true, target_label(t));
                },
                Target::Weapon => {
                    lemma_assemble_typed_paths::<WeaponLoader>(g, true, target_label(t));
                },
                Target::Unsupported => {},
            }
        }
        assert forall|i: int| 0 <= i < order.len() implies {
            &&& merged_target(#[trigger] ms[i]) == order[i]
            &&& merged_paths(ms[i]) == group_of(ins, order[i]).map_values(|s: (Seq<char>, Seq<char>)| s.0)
        } by {
            if i < order.len() - 1 {
                assert(ms[i] == ps[i]);
                assert(order.drop_last()[i] == order[i]);
            }
        }
    }
}

proof fn lemma_first_seen_distinct(ins: Seq<MergeInputModel>)
    ensures
        forall|i: int, j: int| 0 <= i < j < first_seen_targets(ins).len() ==> first_seen_targets(ins)[i] != first_seen_targets(ins)[j],
    decreases ins.len(),
{
    if ins.len() > 0 {
        lemma_first_seen_distinct(ins.drop_last());
        let p = first_seen_targets(ins.drop_last());
        if !p.contains(ins.last().2) {
            assert forall|i: int, j: int| 0 <= i < j < p.push(ins.last().2).len() implies p.push(ins.last().2)[i] != p.push(ins.last().2)[j] by {
                if j == p.len() {
                    assert(p[i] == p.push(ins.last().2)[i]);
                }
            }
        }
    }
}

/// merging a mixed list of files gives one corpus per target found among the
/// headers, in the order in which the targets first appear; each target
/// appears once, and each corpus holds exactly the files of its target, in
/// file order.
pub proof fn law_merge_groups_by_first_seen_target(files: Seq<PendingModel>)
    requires
        spec_merge_from_files(files) is Ok,
    ensures
        spec_merge_inputs(files) is Ok,
        spec_merge_from_files(files)->Ok_0.len() == first_seen_targets(merge_inputs_of(files)).len(),
        forall|i: int| 0 <= i < spec_merge_from_files(files)->Ok_0.len() ==> {
            &&& merged_target(#[trigger] spec_merge_from_files(files)->Ok_0[i]) == first_seen_targets(merge_inputs_of(files))[i]
            &&& merged_paths(spec_merge_from_files(files)->Ok_0[i]) == group_of(
                merge_inputs_of(files),
                merged_target(spec_merge_from_files(files)->Ok_0[i]),
            ).map_values(|s: (Seq<char>, Seq<char>)| s.0)
        },
        forall|i: int, j: int|
            0 <= i < j < spec_merge_from_files(files)->Ok_0.len() ==> merged_target(spec_merge_from_files(files)->Ok_0[i])
                != merged_target(spec_merge_from_files(files)->Ok_0[j]),
        forall|t: Target|
            first_seen_targets(merge_inputs_of(files)).contains(t) <==> exists|k: int|
                0 <= k < merge_inputs_of(files).len() && #[trigger] merge_inputs_of(files)[k].2 == t,
{
    let ins = merge_inputs_of(files);
    lemma_merge_groups_shape(ins, first_seen_targets(ins));
    lemma_first_seen_distinct(ins);
    assert forall|t: Target|
        first_seen_targets(ins).contains(t) <==> exists|k: int| 0 <= k < ins.len() && #[trigger] ins[k].2 == t by {
        lemma_first_seen_contains(ins, t);
    }
}

} // verus!
