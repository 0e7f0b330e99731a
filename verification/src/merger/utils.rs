//! shared merge utilities for parsing, corpus assembly, and source identity.

use vstd::prelude::*;

use crate::corpus::error::{CorpusLoaderError, LoadErrorModel};
use crate::corpus::utils::{make_unique_source_id, seen_count, unique_source_id};
use crate::corpus::{PendingModel, PendingSource};
use crate::hashing::{hash_source_content, source_hash};
use crate::loader::{load_str, loaded_view, spec_load, target_name, AethelDoc, AethelDocModel, TargetedLoader};
use crate::merge::{docs_view, AethelCorpus, CorpusModel, SourceAethelDoc, SourceDocModel};
use crate::merger::error::{MergerErrModel, MergerError};
use crate::merger::merger_options::{MergeOptions, MergerOptionError};
use crate::merger::{MergeSourceInput, MergeValidator};
use crate::text::{owned, str_eq};

verus! {

/// a validation hook that accepts every document.
pub struct NoopMergeValidator;

impl<T> MergeValidator<T> for NoopMergeValidator {
    fn validate(&self, _document: &AethelDoc<T>, _source_path: &str) -> (r: Result<(), MergerError>)
        ensures
            r is Ok,
    {
        Ok(())
    }
}

/// the `(path, raw)` pairs of the sources.
pub open spec fn sources_view(s: Seq<MergeSourceInput<'_>>) -> Seq<(Seq<char>, Seq<char>)> {
    s.map_values(|x: MergeSourceInput<'_>| x@)
}

/// whether repeated header names are allowed under the given options.
pub open spec fn merge_options_allowed(opts: Option<MergeOptions>) -> bool {
    match opts {
        Some(o) => o.identical_title_allowed,
        None => true,
    }
}

/// the message for a merge without sources.
pub open spec fn no_paths_message() -> Seq<char> {
    "at least one path is required for merge"@
}

/// how many documents carry the hash `h`.
pub open spec fn hash_count<M>(ds: Seq<SourceDocModel<M>>, h: Seq<char>) -> nat
    decreases ds.len(),
{
    if ds.len() == 0 {
        0
    } else {
        hash_count(ds.drop_last(), h) + if ds.last().source_hash == h {
            1nat
        } else {
            0nat
        }
    }
}

proof fn lemma_hash_count_bound<M>(ds: Seq<SourceDocModel<M>>, h: Seq<char>)
    ensures
        hash_count(ds, h) <= ds.len(),
    decreases ds.len(),
{
    if ds.len() > 0 {
        lemma_hash_count_bound(ds.drop_last(), h);
    }
}

/// whether any document's header is named `n`.
pub open spec fn has_name<M>(ds: Seq<SourceDocModel<M>>, n: Seq<char>) -> bool {
    exists|i: int| 0 <= i < ds.len() && #[trigger] ds[i].header.name == n
}

/// the documents after taking one more source `(path, raw)`, or the error it
/// causes: the typed load, then the repeated-name check (when repeated names
/// are not `allowed`), then hash and id (the hash keyed by `label`).
pub open spec fn typed_step<T: TargetedLoader>(
    docs: Seq<SourceDocModel<T::V>>,
    src: (Seq<char>, Seq<char>),
    allowed: bool,
    label: Seq<char>,
) -> Result<Seq<SourceDocModel<T::V>>, MergerErrModel> {
    match spec_load::<T>(src.0, src.1) {
        Err(e) => Err(MergerErrModel::Loader(e)),
        Ok(d) => if !allowed && has_name(docs, d.header.name) {
            Err(MergerErrModel::DuplicateName(d.header.name))
        } else {
            let h = source_hash(label, src.1);
            Ok(
                docs.push(
                    SourceDocModel {
                        source_id: unique_source_id(h, hash_count(docs, h) + 1),
                        source_hash: h,
                        source_path: src.0,
                        header: d.header,
                        data: d.data,
                    },
                ),
            )
        },
    }
}

/// the documents that the sources yield in order, or the first error.
pub open spec fn spec_assemble_typed<T: TargetedLoader>(
    srcs: Seq<(Seq<char>, Seq<char>)>,
    allowed: bool,
    label: Seq<char>,
) -> Result<Seq<SourceDocModel<T::V>>, MergerErrModel>
    decreases srcs.len(),
{
    if srcs.len() == 0 {
        Ok(Seq::<SourceDocModel<T::V>>::empty())
    } else {
        match spec_assemble_typed::<T>(srcs.drop_last(), allowed, label) {
            Err(e) => Err(e),
            Ok(docs) => typed_step::<T>(docs, srcs.last(), allowed, label),
        }
    }
}

/// the documents after taking one more source when the hook answers
/// `verdict` for it (`Some(e)`: the hook rejects the document with `e`): the
/// typed load and the repeated-name check come first, then the hook, then
/// hash and id.
pub open spec fn checked_step<T: TargetedLoader>(
    docs: Seq<SourceDocModel<T::V>>,
    src: (Seq<char>, Seq<char>),
    allowed: bool,
    label: Seq<char>,
    verdict: Option<MergerErrModel>,
) -> Result<Seq<SourceDocModel<T::V>>, MergerErrModel> {
    match spec_load::<T>(src.0, src.1) {
        Err(e) => Err(MergerErrModel::Loader(e)),
        Ok(d) => if !allowed && has_name(docs, d.header.name) {
            Err(MergerErrModel::DuplicateName(d.header.name))
        } else {
            match verdict {
                Some(e) => Err(e),
                None => typed_step::<T>(docs, src, allowed, label),
            }
        },
    }
}

/// the hook's answer about the `k`-th document: `verdicts[k]`, or acceptance
/// where it was not asked.
pub open spec fn verdict_at(verdicts: Seq<Option<MergerErrModel>>, k: int) -> Option<MergerErrModel> {
    if 0 <= k < verdicts.len() {
        verdicts[k]
    } else {
        None
    }
}

/// the verdicts that the hook's answers give: `None` for acceptance, the
/// error for a rejection.
pub open spec fn verdicts_of(answers: Seq<Result<(), MergerError>>) -> Seq<Option<MergerErrModel>> {
    answers.map_values(|a: Result<(), MergerError>| match a {
        Ok(_) => None,
        Err(e) => Some(e@),
    })
}

/// the hook was asked about the first `given.len()` sources in order: the
/// `k`-th time about `given[k]`, the document that the `k`-th source loads to,
/// with that source's path, and it answered `answers[k]`.
pub open spec fn hook_answers<T: TargetedLoader, V: MergeValidator<T>>(
    validator: &V,
    sources: Seq<MergeSourceInput<'_>>,
    given: Seq<AethelDoc<T>>,
    answers: Seq<Result<(), MergerError>>,
) -> bool {
    &&& given.len() == answers.len() <= sources.len()
    &&& forall|k: int|
        0 <= k < given.len() ==> spec_load::<T>(sources[k].path@, sources[k].raw@) == Ok::<
            AethelDocModel<T::V>,
            LoadErrorModel,
        >(#[trigger] given[k]@)
    &&& forall|k: int|
        0 <= k < given.len() ==> #[trigger] call_ensures(V::validate, (validator, &given[k], sources[k].path), answers[k])
}

/// the documents that the sources yield in order when the hook answers the
/// `k`-th document with `verdict_at(verdicts, k)`, or the first error.
pub open spec fn spec_assemble_checked<T: TargetedLoader>(
    srcs: Seq<(Seq<char>, Seq<char>)>,
    allowed: bool,
    label: Seq<char>,
    verdicts: Seq<Option<MergerErrModel>>,
) -> Result<Seq<SourceDocModel<T::V>>, MergerErrModel>
    decreases srcs.len(),
{
    if srcs.len() == 0 {
        Ok(Seq::<SourceDocModel<T::V>>::empty())
    } else {
        match spec_assemble_checked::<T>(srcs.drop_last(), allowed, label, verdicts) {
            Err(e) => Err(e),
            Ok(docs) => checked_step::<T>(docs, srcs.last(), allowed, label, verdict_at(verdicts, srcs.len() - 1)),
        }
    }
}

/// a hook that accepts every document leaves the assembly as it is without one.
proof fn lemma_checked_accepting<T: TargetedLoader>(
    srcs: Seq<(Seq<char>, Seq<char>)>,
    allowed: bool,
    label: Seq<char>,
    verdicts: Seq<Option<MergerErrModel>>,
)
    requires
        forall|k: int| 0 <= k < srcs.len() ==> (#[trigger] verdict_at(verdicts, k)) is None,
    ensures
        spec_assemble_checked::<T>(srcs, allowed, label, verdicts) == spec_assemble_typed::<T>(srcs, allowed, label),
    decreases srcs.len(),
{
    if srcs.len() > 0 {
        lemma_checked_accepting::<T>(srcs.drop_last(), allowed, label, verdicts);
        assert(verdict_at(verdicts, srcs.len() - 1) is None);
    }
}

proof fn lemma_checked_error_sticks<T: TargetedLoader>(
    srcs: Seq<(Seq<char>, Seq<char>)>,
    allowed: bool,
    label: Seq<char>,
    verdicts: Seq<Option<MergerErrModel>>,
    n: int,
)
    requires
        0 <= n <= srcs.len(),
        spec_assemble_checked::<T>(srcs.take(n), allowed, label, verdicts) is Err,
    ensures
        spec_assemble_checked::<T>(srcs, allowed, label, verdicts) == spec_assemble_checked::<T>(srcs.take(n), allowed, label, verdicts),
        checked_asked::<T>(srcs, allowed, label, verdicts) == checked_asked::<T>(srcs.take(n), allowed, label, verdicts),
    decreases srcs.len() - n,
{
    if n < srcs.len() {
        assert(srcs.take(n + 1).drop_last() =~= srcs.take(n));
        lemma_checked_error_sticks::<T>(srcs, allowed, label, verdicts, n + 1);
    } else {
        assert(srcs.take(n) =~= srcs);
    }
}

/// how many documents the hook is asked about when it answers the `k`-th
/// with `verdict_at(verdicts, k)`: one per source, in order, for each source
/// that loads and passes the repeated-name check, until the first error
/// (a rejection included).
pub open spec fn checked_asked<T: TargetedLoader>(
    srcs: Seq<(Seq<char>, Seq<char>)>,
    allowed: bool,
    label: Seq<char>,
    verdicts: Seq<Option<MergerErrModel>>,
) -> nat
    decreases srcs.len(),
{
    if srcs.len() == 0 {
        0
    } else {
        let n = checked_asked::<T>(srcs.drop_last(), allowed, label, verdicts);
        match spec_assemble_checked::<T>(srcs.drop_last(), allowed, label, verdicts) {
            Err(_) => n,
            Ok(docs) => match spec_load::<T>(srcs.last().0, srcs.last().1) {
                Err(_) => n,
                Ok(d) => if !allowed && has_name(docs, d.header.name) {
                    n
                } else {
                    n + 1
                },
            },
        }
    }
}

/// a hook that accepts every document is asked about every source when the
/// assembly succeeds.
proof fn lemma_asked_accepting<T: TargetedLoader>(
    srcs: Seq<(Seq<char>, Seq<char>)>,
    allowed: bool,
    label: Seq<char>,
    verdicts: Seq<Option<MergerErrModel>>,
)
    requires
        forall|k: int| 0 <= k < srcs.len() ==> (#[trigger] verdict_at(verdicts, k)) is None,
        spec_assemble_typed::<T>(srcs, allowed, label) is Ok,
    ensures
        checked_asked::<T>(srcs, allowed, label, verdicts) == srcs.len(),
    decreases srcs.len(),
{
    if srcs.len() > 0 {
        assert forall|k: int| 0 <= k < srcs.drop_last().len() implies (#[trigger] verdict_at(verdicts, k)) is None by {
            assert(verdict_at(verdicts, k) is None);
        }
        lemma_checked_accepting::<T>(srcs.drop_last(), allowed, label, verdicts);
        lemma_asked_accepting::<T>(srcs.drop_last(), allowed, label, verdicts);
    }
}

/// the hook was asked about the first `i` sources when source `i` fails a
/// check of its own after every earlier document was accepted.
proof fn lemma_asked_at_failure<T: TargetedLoader>(
    srcs: Seq<(Seq<char>, Seq<char>)>,
    allowed: bool,
    label: Seq<char>,
    answers: Seq<Result<(), MergerError>>,
    i: int,
)
    requires
        0 <= i < srcs.len(),
        answers.len() == i,
        forall|k: int| 0 <= k < answers.len() ==> (#[trigger] answers[k]) is Ok,
        spec_assemble_typed::<T>(srcs.take(i), allowed, label) is Ok,
        spec_assemble_typed::<T>(srcs.take(i + 1), allowed, label) is Err,
    ensures
        checked_asked::<T>(srcs, allowed, label, verdicts_of(answers)) == i,
{
    let vs = verdicts_of(answers);
    let t = srcs.take(i + 1);
    assert(t.drop_last() =~= srcs.take(i));
    assert forall|k: int| 0 <= k < t.len() implies (#[trigger] verdict_at(vs, k)) is None by {
        if k < answers.len() {
            assert(answers[k] is Ok);
        }
    }
    lemma_checked_accepting::<T>(t, allowed, label, vs);
    lemma_checked_accepting::<T>(srcs.take(i), allowed, label, vs);
    lemma_asked_accepting::<T>(srcs.take(i), allowed, label, vs);
    lemma_checked_error_sticks::<T>(srcs, allowed, label, vs, i + 1);
}

/// the hook was asked about the first `i + 1` sources when it rejects the
/// document of source `i` after accepting every earlier one.
proof fn lemma_asked_at_rejection<T: TargetedLoader>(
    srcs: Seq<(Seq<char>, Seq<char>)>,
    allowed: bool,
    label: Seq<char>,
    answers: Seq<Result<(), MergerError>>,
    i: int,
)
    requires
        0 <= i < srcs.len(),
        answers.len() == i + 1,
        forall|k: int| 0 <= k < i ==> (#[trigger] answers[k]) is Ok,
        answers[i] is Err,
        spec_assemble_typed::<T>(srcs.take(i + 1), allowed, label) is Ok,
    ensures
        checked_asked::<T>(srcs, allowed, label, verdicts_of(answers)) == i + 1,
        spec_assemble_checked::<T>(srcs, allowed, label, verdicts_of(answers)) == Err::<
            Seq<SourceDocModel<T::V>>,
            MergerErrModel,
        >(answers[i]->Err_0@),
{
    let vs = verdicts_of(answers);
    let t = srcs.take(i + 1);
    assert(t.drop_last() =~= srcs.take(i));
    assert(t.last() == srcs[i]);
    assert forall|k: int| 0 <= k < srcs.take(i).len() implies (#[trigger] verdict_at(vs, k)) is None by {
        assert(answers[k] is Ok);
    }
    assert(vs[i] == Some(answers[i]->Err_0@));
    lemma_checked_accepting::<T>(srcs.take(i), allowed, label, vs);
    lemma_asked_accepting::<T>(srcs.take(i), allowed, label, vs);
    lemma_checked_error_sticks::<T>(srcs, allowed, label, vs, i + 1);
}

/// answers that all accept leave the assembly as it is without a hook.
proof fn lemma_all_accepted<T: TargetedLoader>(
    srcs: Seq<(Seq<char>, Seq<char>)>,
    allowed: bool,
    label: Seq<char>,
    answers: Seq<Result<(), MergerError>>,
)
    requires
        forall|k: int| 0 <= k < answers.len() ==> (#[trigger] answers[k]) is Ok,
    ensures
        spec_assemble_checked::<T>(srcs, allowed, label, verdicts_of(answers)) == spec_assemble_typed::<T>(srcs, allowed, label),
{
    let vs = verdicts_of(answers);
    assert forall|k: int| 0 <= k < srcs.len() implies (#[trigger] verdict_at(vs, k)) is None by {
        if 0 <= k < answers.len() {
            assert(answers[k] is Ok);
        }
    }
    lemma_checked_accepting::<T>(srcs, allowed, label, vs);
}

proof fn lemma_assemble_typed_error_sticks<T: TargetedLoader>(
    srcs: Seq<(Seq<char>, Seq<char>)>,
    allowed: bool,
    label: Seq<char>,
    n: int,
)
    requires
        0 <= n <= srcs.len(),
        spec_assemble_typed::<T>(srcs.take(n), allowed, label) is Err,
    ensures
        spec_assemble_typed::<T>(srcs, allowed, label) == spec_assemble_typed::<T>(srcs.take(n), allowed, label),
    decreases srcs.len() - n,
{
    if n < srcs.len() {
        assert(srcs.take(n + 1).drop_last() =~= srcs.take(n));
        lemma_assemble_typed_error_sticks::<T>(srcs, allowed, label, n + 1);
    } else {
        assert(srcs.take(n) =~= srcs);
    }
}

/// the view of an assembly outcome.
pub open spec fn docs_result_view<T: View>(r: Result<Vec<SourceAethelDoc<T>>, MergerError>) -> Result<Seq<SourceDocModel<T::V>>, MergerErrModel> {
    match r {
        Ok(ds) => Ok(docs_view(ds@)),
        Err(e) => Err(e@),
    }
}

/// whether a document is already named `name`.
fn name_taken<T: View>(documents: &Vec<SourceAethelDoc<T>>, name: &str) -> (r: bool)
    ensures
        r == has_name(docs_view(documents@), name@),
{
    let mut i: usize = 0;
    while i < documents.len()
        invariant
            i <= documents@.len(),
            forall|j: int| 0 <= j < i ==> documents@[j].header.name@ != name@,
        decreases documents@.len() - i,
    {
        if str_eq(documents[i].header.name.as_str(), name) {
            proof {
                assert(docs_view(documents@)[i as int].header.name == name@);
            }
            return true;
        }
        i = i + 1;
    }
    proof {
        if has_name(docs_view(documents@), name@) {
            let j = choose|j: int| 0 <= j < documents@.len() && #[trigger] docs_view(documents@)[j].header.name == name@;
            assert(docs_view(documents@)[j] == documents@[j]@);
        }
    }
    false
}

/// assembles the documents of the sources in order: each is loaded as a
/// document of `T` (its target checked), repeated header names are refused
/// unless `allowed`, the hook (if any) is asked, and each gets its hash
/// (keyed by `label`) and a unique id.
pub fn assemble_typed<T: TargetedLoader, V: MergeValidator<T>>(
    sources: &[MergeSourceInput<'_>],
    allowed: bool,
    validator: Option<&V>,
    label: &str,
) -> (r: Result<Vec<SourceAethelDoc<T>>, MergerError>)
    ensures
        validator is None ==> docs_result_view(r) == spec_assemble_typed::<T>(sources_view(sources@), allowed, label@),
        r is Ok ==> docs_result_view(r) == spec_assemble_typed::<T>(sources_view(sources@), allowed, label@),
        spec_assemble_typed::<T>(sources_view(sources@), allowed, label@) is Err ==> r is Err,
        validator matches Some(v) ==> exists|given: Seq<AethelDoc<T>>, answers: Seq<Result<(), MergerError>>|
            #[trigger] hook_answers(v, sources@, given, answers) && docs_result_view(r) == spec_assemble_checked::<T>(
                sources_view(sources@),
                allowed,
                label@,
                verdicts_of(answers),
            ) && given.len() == checked_asked::<T>(sources_view(sources@), allowed, label@, verdicts_of(answers)),
{
    let ghost srcs = sources_view(sources@);
    let ghost mut given: Seq<AethelDoc<T>> = Seq::empty();
    let ghost mut answers: Seq<Result<(), MergerError>> = Seq::empty();
    let mut seen: Vec<(String, usize)> = Vec::new();
    let mut documents: Vec<SourceAethelDoc<T>> = Vec::new();
    let mut i: usize = 0;
    proof {
        assert(srcs.take(0) =~= Seq::<(Seq<char>, Seq<char>)>::empty());
        assert(docs_view(documents@) =~= Seq::<SourceDocModel<T::V>>::empty());
    }
    while i < sources.len()
        invariant
            i <= sources@.len(),
            srcs == sources_view(sources@),
            spec_assemble_typed::<T>(srcs.take(i as int), allowed, label@) == Ok::<Seq<SourceDocModel<T::V>>, MergerErrModel>(docs_view(documents@)),
            documents@.len() <= i,
            forall|h: Seq<char>| #[trigger] seen_count(seen@, h) == hash_count(docs_view(documents@), h),
            answers.len() <= i,
            validator is Some ==> answers.len() == i,
            forall|k: int| 0 <= k < answers.len() ==> (#[trigger] answers[k]) is Ok,
            validator matches Some(v) ==> hook_answers(v, sources@, given, answers),
        decreases sources@.len() - i,
    {
        let ghost docs0 = docs_view(documents@);
        proof {
            assert(srcs.take(i as int + 1).drop_last() =~= srcs.take(i as int));
            assert(srcs.take(i as int + 1).last() == sources@[i as int]@);
        }
        let path = sources[i].path;
        let raw = sources[i].raw;
        let parsed = match load_str::<T>(path, raw) {
            Ok(d) => d,
            Err(e) => {
                proof {
                    lemma_assemble_typed_error_sticks::<T>(srcs, allowed, label@, i as int + 1);
                    lemma_all_accepted::<T>(srcs, allowed, label@, answers);
                    if validator is Some {
                        lemma_asked_at_failure::<T>(srcs, allowed, label@, answers, i as int);
                    }
                }
                return Err(MergerError::Loader(e));
            },
        };
        if !allowed && name_taken(&documents, parsed.header.name.as_str()) {
            proof {
                lemma_assemble_typed_error_sticks::<T>(srcs, allowed, label@, i as int + 1);
                lemma_all_accepted::<T>(srcs, allowed, label@, answers);
                if validator is Some {
                    lemma_asked_at_failure::<T>(srcs, allowed, label@, answers, i as int);
                }
            }
            return Err(MergerError::MergerOption(MergerOptionError::IdenticalNameAllowed { header: parsed.header.name }));
        }
        match validator {
            Some(v) => {
                let check = V::validate;
                let answer = check(v, &parsed, path);
                proof {
                    let g2 = given.push(parsed);
                    let a2 = answers.push(answer);
                    assert forall|k: int| 0 <= k < g2.len() implies #[trigger] call_ensures(
                        V::validate,
                        (v, &g2[k], sources@[k].path),
                        a2[k],
                    ) by {
                        if k < given.len() {
                            assert(g2[k] == given[k] && a2[k] == answers[k]);
                        } else {
                            assert(k == i && g2[k] == parsed && a2[k] == answer && sources@[k].path == path);
                        }
                    }
                    assert forall|k: int| 0 <= k < g2.len() implies spec_load::<T>(sources@[k].path@, sources@[k].raw@) == Ok::<
                        AethelDocModel<T::V>,
                        LoadErrorModel,
                    >(#[trigger] g2[k]@) by {
                        if k < given.len() {
                            assert(g2[k] == given[k]);
                        } else {
                            assert(k == i && g2[k] == parsed && sources@[k].path == path && sources@[k].raw == raw);
                            assert(loaded_view::<T>(Ok(parsed)) == spec_load::<T>(path@, raw@));
                        }
                    }
                    given = g2;
                    answers = a2;
                }
                match answer {
                    Ok(()) => {},
                    Err(e) => {
                        proof {
                            let vs = verdicts_of(answers);
                            assert(vs[i as int] == Some(e@));
                            assert forall|k: int| 0 <= k < i implies (#[trigger] verdict_at(vs, k)) is None by {
                                assert(answers[k] is Ok);
                            }
                            lemma_checked_accepting::<T>(srcs.take(i as int), allowed, label@, vs);
                            assert(srcs.take(i as int + 1).drop_last() =~= srcs.take(i as int));
                            assert(spec_assemble_checked::<T>(srcs.take(i as int + 1), allowed, label@, vs) == Err::<
                                Seq<SourceDocModel<T::V>>,
                                MergerErrModel,
                            >(e@));
                            lemma_checked_error_sticks::<T>(srcs, allowed, label@, vs, i as int + 1);
                            assert(docs_result_view(Err::<Vec<SourceAethelDoc<T>>, MergerError>(e)) == spec_assemble_checked::<T>(
                                srcs,
                                allowed,
                                label@,
                                vs,
                            ));
                            assert(hook_answers(v, sources@, given, answers));
                            assert(spec_assemble_typed::<T>(srcs.take(i as int + 1), allowed, label@) is Ok);
                            lemma_asked_at_rejection::<T>(srcs, allowed, label@, answers, i as int);
                        }
                        return Err(e);
                    },
                }
            },
            None => {},
        }
        let source_hash = hash_source_content(label, raw);
        proof {
            lemma_hash_count_bound(docs0, source_hash@);
        }
        let source_id = make_unique_source_id(source_hash.as_str(), &mut seen);
        let AethelDoc { header, data } = parsed;
        let doc = SourceAethelDoc { source_id, source_hash, source_path: owned(path), header, data };
        documents.push(doc);
        proof {
            assert(docs_view(documents@) =~= docs0.push(doc@));
            assert forall|h: Seq<char>| #[trigger] seen_count(seen@, h) == hash_count(docs_view(documents@), h) by {
                assert(docs_view(documents@).drop_last() =~= docs0);
            }
        }
        i = i + 1;
    }
    proof {
        assert(srcs.take(sources@.len() as int) =~= srcs);
        lemma_all_accepted::<T>(srcs, allowed, label@, answers);
        if validator is Some {
            let vs = verdicts_of(answers);
            assert forall|k: int| 0 <= k < srcs.len() implies (#[trigger] verdict_at(vs, k)) is None by {
                assert(answers[k] is Ok);
            }
            lemma_asked_accepting::<T>(srcs, allowed, label@, vs);
        }
    }
    Ok(documents)
}

/// the corpus that merging the sources gives, or the error.
pub open spec fn typed_corpus_outcome<T: TargetedLoader>(srcs: Seq<(Seq<char>, Seq<char>)>, allowed: bool) -> Result<CorpusModel<T::V>, MergerErrModel> {
    if srcs.len() == 0 {
        Err(MergerErrModel::InvalidInput(no_paths_message()))
    } else {
        match spec_assemble_typed::<T>(srcs, allowed, target_name(T::target_spec())) {
            Err(e) => Err(e),
            Ok(ds) => Ok(CorpusModel { target: T::target_spec(), documents: ds }),
        }
    }
}

/// the corpus that merging the sources gives when the hook answers the
/// `k`-th document with `verdicts[k]`, or the error.
pub open spec fn checked_corpus_outcome<T: TargetedLoader>(
    srcs: Seq<(Seq<char>, Seq<char>)>,
    allowed: bool,
    verdicts: Seq<Option<MergerErrModel>>,
) -> Result<CorpusModel<T::V>, MergerErrModel> {
    if srcs.len() == 0 {
        Err(MergerErrModel::InvalidInput(no_paths_message()))
    } else {
        match spec_assemble_checked::<T>(srcs, allowed, target_name(T::target_spec()), verdicts) {
            Err(e) => Err(e),
            Ok(ds) => Ok(CorpusModel { target: T::target_spec(), documents: ds }),
        }
    }
}

/// how many documents the hook is asked about when merging the sources and
/// it answers the `k`-th with `verdict_at(verdicts, k)`.
pub open spec fn checked_corpus_asked<T: TargetedLoader>(
    srcs: Seq<(Seq<char>, Seq<char>)>,
    allowed: bool,
    verdicts: Seq<Option<MergerErrModel>>,
) -> nat {
    if srcs.len() == 0 {
        0
    } else {
        checked_asked::<T>(srcs, allowed, target_name(T::target_spec()), verdicts)
    }
}

/// the view of a corpus outcome.
pub open spec fn corpus_result_view<T: View>(r: Result<AethelCorpus<T>, MergerError>) -> Result<CorpusModel<T::V>, MergerErrModel> {
    match r {
        Ok(c) => Ok(c@),
        Err(e) => Err(e@),
    }
}

/// assembles a target corpus from already-loaded source payloads using a validator.
pub fn build_corpus_from_sources_with_validator<T: TargetedLoader, V: MergeValidator<T>>(
    sources: &[MergeSourceInput<'_>],
    opts: Option<MergeOptions>,
    validator: &V,
) -> (r: Result<AethelCorpus<T>, MergerError>)
    ensures
        r is Ok ==> corpus_result_view(r) == typed_corpus_outcome::<T>(sources_view(sources@), merge_options_allowed(opts)),
        typed_corpus_outcome::<T>(sources_view(sources@), merge_options_allowed(opts)) is Err ==> r is Err,
        sources@.len() == 0 ==> corpus_result_view(r) == typed_corpus_outcome::<T>(sources_view(sources@), merge_options_allowed(opts)),
        exists|given: Seq<AethelDoc<T>>, answers: Seq<Result<(), MergerError>>|
            #[trigger] hook_answers(validator, sources@, given, answers) && corpus_result_view(r) == checked_corpus_outcome::<T>(
                sources_view(sources@),
                merge_options_allowed(opts),
                verdicts_of(answers),
            ) && given.len() == checked_corpus_asked::<T>(sources_view(sources@), merge_options_allowed(opts), verdicts_of(answers)),
{
    if sources.len() == 0 {
        let r = Err(MergerError::InvalidInput(owned("at least one path is required for merge")));
        proof {
            let given = Seq::<AethelDoc<T>>::empty();
            let answers = Seq::<Result<(), MergerError>>::empty();
            assert(hook_answers(validator, sources@, given, answers));
            assert(corpus_result_view(r) == checked_corpus_outcome::<T>(
                sources_view(sources@),
                merge_options_allowed(opts),
                verdicts_of(answers),
            ));
        }
        return r;
    }
    let allowed = match opts {
        Some(o) => o.identical_title_allowed,
        None => true,
    };
    let target = T::target();
    let label = target.as_str();
    let assembled = assemble_typed::<T, V>(sources, allowed, Some(validator), label);
    let ghost (given, answers) = choose|given: Seq<AethelDoc<T>>, answers: Seq<Result<(), MergerError>>|
        #[trigger] hook_answers(validator, sources@, given, answers) && docs_result_view(assembled) == spec_assemble_checked::<T>(
            sources_view(sources@),
            allowed,
            label@,
            verdicts_of(answers),
        ) && given.len() == checked_asked::<T>(sources_view(sources@), allowed, label@, verdicts_of(answers));
    let r = match assembled {
        Ok(documents) => Ok(AethelCorpus { target, documents }),
        Err(e) => Err(e),
    };
    assert(corpus_result_view(r) == checked_corpus_outcome::<T>(
        sources_view(sources@),
        merge_options_allowed(opts),
        verdicts_of(answers),
    ));
    assert(given.len() == checked_corpus_asked::<T>(sources_view(sources@), merge_options_allowed(opts), verdicts_of(answers)));
    r
}

/// assembles a target corpus from already-loaded source payloads.
pub fn build_corpus_from_sources<T: TargetedLoader>(sources: &[MergeSourceInput<'_>], opts: Option<MergeOptions>) -> (r: Result<AethelCorpus<T>, MergerError>)
    ensures
        corpus_result_view(r) == typed_corpus_outcome::<T>(sources_view(sources@), merge_options_allowed(opts)),
        r matches Ok(c) ==> c.target == T::target_spec(),
{
    if sources.len() == 0 {
        return Err(MergerError::InvalidInput(owned("at least one path is required for merge")));
    }
    let allowed = match opts {
        Some(o) => o.identical_title_allowed,
        None => true,
    };
    let target = T::target();
    let documents = assemble_typed::<T, NoopMergeValidator>(sources, allowed, None, target.as_str())?;
    Ok(AethelCorpus { target, documents })
}

/// the error of the first file whose read failed.
pub open spec fn first_read_error(files: Seq<PendingModel>) -> Option<LoadErrorModel>
    decreases files.len(),
{
    if files.len() == 0 {
        None
    } else {
        match first_read_error(files.drop_last()) {
            Some(e) => Some(e),
            None => match files.last() {
                PendingModel::Unreadable { path, message } => Some(LoadErrorModel::Read { path: Some(path), source: message }),
                PendingModel::Str { .. } => None,
            },
        }
    }
}

/// the `(path, text)` pair of a file (an unreadable file has no text).
pub open spec fn pending_text(p: PendingModel) -> (Seq<char>, Seq<char>) {
    match p {
        PendingModel::Str { name, raw } => (name, raw),
        PendingModel::Unreadable { path, .. } => (path, Seq::<char>::empty()),
    }
}

/// the outcome of merging files: every file is read before any is parsed,
/// so the first read error comes first.
pub open spec fn paths_outcome<T: TargetedLoader>(files: Seq<PendingModel>, allowed: bool) -> Result<CorpusModel<T::V>, MergerErrModel> {
    if files.len() == 0 {
        Err(MergerErrModel::InvalidInput(no_paths_message()))
    } else {
        match first_read_error(files) {
            Some(e) => Err(MergerErrModel::Loader(e)),
            None => typed_corpus_outcome::<T>(files.map_values(|p: PendingModel| pending_text(p)), allowed),
        }
    }
}

/// the views of the files.
pub open spec fn pending_view(files: Seq<PendingSource>) -> Seq<PendingModel> {
    files.map_values(|p: PendingSource| p@)
}

/// the outcome of merging files when the hook answers the `k`-th document
/// with `verdicts[k]`: every file is read before any is parsed, so the first
/// read error comes first.
pub open spec fn checked_paths_outcome<T: TargetedLoader>(
    files: Seq<PendingModel>,
    allowed: bool,
    verdicts: Seq<Option<MergerErrModel>>,
) -> Result<CorpusModel<T::V>, MergerErrModel> {
    if files.len() == 0 {
        Err(MergerErrModel::InvalidInput(no_paths_message()))
    } else {
        match first_read_error(files) {
            Some(e) => Err(MergerErrModel::Loader(e)),
            None => checked_corpus_outcome::<T>(files.map_values(|p: PendingModel| pending_text(p)), allowed, verdicts),
        }
    }
}

/// how many documents the hook is asked about when merging the files and
/// it answers the `k`-th with `verdict_at(verdicts, k)`: none when there is no
/// file or a file could not be read.
pub open spec fn checked_paths_asked<T: TargetedLoader>(
    files: Seq<PendingModel>,
    allowed: bool,
    verdicts: Seq<Option<MergerErrModel>>,
) -> nat {
    if files.len() == 0 {
        0
    } else {
        match first_read_error(files) {
            Some(_) => 0,
            None => checked_corpus_asked::<T>(files.map_values(|p: PendingModel| pending_text(p)), allowed, verdicts),
        }
    }
}

/// the sources of readable files, or the first read error.
pub fn read_all<'a>(files: &'a [PendingSource]) -> (r: Result<Vec<MergeSourceInput<'a>>, CorpusLoaderError>)
    ensures
        match r {
            Ok(v) => first_read_error(files@.map_values(|p: PendingSource| p@)) is None
                && sources_view(v@) == files@.map_values(|p: PendingSource| p@).map_values(|p: PendingModel| pending_text(p)),
            Err(e) => first_read_error(files@.map_values(|p: PendingSource| p@)) == Some(e@),
        },
{
    let ghost fs = files@.map_values(|p: PendingSource| p@);
    let mut out: Vec<MergeSourceInput<'a>> = Vec::new();
    let mut i: usize = 0;
    proof {
        assert(fs.take(0) =~= Seq::<PendingModel>::empty());
        assert(sources_view(out@) =~= Seq::<(Seq<char>, Seq<char>)>::empty());
    }
    while i < files.len()
        invariant
            i <= files@.len(),
            fs == files@.map_values(|p: PendingSource| p@),
            first_read_error(fs.take(i as int)) is None,
            sources_view(out@) == fs.take(i as int).map_values(|p: PendingModel| pending_text(p)),
        decreases files@.len() - i,
    {
        proof {
            assert(fs.take(i as int + 1).drop_last() =~= fs.take(i as int));
            assert(fs.take(i as int + 1).last() == files@[i as int]@);
        }
        match &files[i] {
            PendingSource::Unreadable { path, message } => {
                proof {
                    lemma_read_error_sticks(fs, i as int + 1);
                }
                return Err(CorpusLoaderError::read_for_path(path.as_str(), message.clone()));
            },
            PendingSource::Str { name, raw } => {
                let ghost prev = out@;
                out.push(MergeSourceInput { path: name.as_str(), raw: raw.as_str() });
                proof {
                    assert(sources_view(out@) =~= sources_view(prev).push(out@.last()@));
                    assert(fs[i as int] == files@[i as int]@);
                    assert(fs.take(i as int + 1).map_values(|p: PendingModel| pending_text(p)) =~= fs.take(i as int).map_values(
                        |p: PendingModel| pending_text(p),
                    ).push(pending_text(fs[i as int])));
                }
            },
        }
        i = i + 1;
    }
    proof {
        assert(fs.take(files@.len() as int) =~= fs);
    }
    Ok(out)
}

proof fn lemma_read_error_sticks(fs: Seq<PendingModel>, n: int)
    requires
        0 <= n <= fs.len(),
        first_read_error(fs.take(n)) is Some,
    ensures
        first_read_error(fs) == first_read_error(fs.take(n)),
    decreases fs.len() - n,
{
    if n < fs.len() {
        assert(fs.take(n + 1).drop_last() =~= fs.take(n));
        lemma_read_error_sticks(fs, n + 1);
    } else {
        assert(fs.take(n) =~= fs);
    }
}

/// loads and validates source files for one target, then assembles a corpus using a validator.
pub fn build_corpus_from_paths_with_validator<T: TargetedLoader, V: MergeValidator<T>>(
    files: &[PendingSource],
    opts: Option<MergeOptions>,
    validator: &V,
) -> (r: Result<AethelCorpus<T>, MergerError>)
    ensures
        r is Ok ==> corpus_result_view(r) == paths_outcome::<T>(files@.map_values(|p: PendingSource| p@), merge_options_allowed(opts)),
        paths_outcome::<T>(files@.map_values(|p: PendingSource| p@), merge_options_allowed(opts)) is Err ==> r is Err,
        exists|read: Seq<MergeSourceInput<'_>>, given: Seq<AethelDoc<T>>, answers: Seq<Result<(), MergerError>>|
            #[trigger] hook_answers(validator, read, given, answers)
                && (read.len() > 0 ==> sources_view(read) == pending_view(files@).map_values(|p: PendingModel| pending_text(p)))
                && corpus_result_view(r) == checked_paths_outcome::<T>(
                pending_view(files@),
                merge_options_allowed(opts),
                verdicts_of(answers),
            ) && given.len() == checked_paths_asked::<T>(pending_view(files@), merge_options_allowed(opts), verdicts_of(answers)),
{
    let ghost fs = pending_view(files@);
    let ghost none_read = Seq::<MergeSourceInput<'_>>::empty();
    let ghost none_given = Seq::<AethelDoc<T>>::empty();
    let ghost none_answers = Seq::<Result<(), MergerError>>::empty();
    assert(hook_answers(validator, none_read, none_given, none_answers));
    if files.len() == 0 {
        let r = Err(MergerError::InvalidInput(owned("at least one path is required for merge")));
        assert(corpus_result_view(r) == checked_paths_outcome::<T>(fs, merge_options_allowed(opts), verdicts_of(none_answers)));
        return r;
    }
    let sources = match read_all(files) {
        Ok(s) => s,
        Err(e) => {
            let r = Err(MergerError::Loader(e));
            assert(corpus_result_view(r) == checked_paths_outcome::<T>(
                fs,
                merge_options_allowed(opts),
                verdicts_of(none_answers),
            ));
            return r;
        },
    };
    let r = build_corpus_from_sources_with_validator::<T, V>(sources.as_slice(), opts, validator);
    proof {
        let (given, answers) = choose|given: Seq<AethelDoc<T>>, answers: Seq<Result<(), MergerError>>|
            #[trigger] hook_answers(validator, sources@, given, answers) && corpus_result_view(r) == checked_corpus_outcome::<T>(
                sources_view(sources@),
                merge_options_allowed(opts),
                verdicts_of(answers),
            ) && given.len() == checked_corpus_asked::<T>(sources_view(sources@), merge_options_allowed(opts), verdicts_of(answers));
        assert(given.len() == checked_paths_asked::<T>(pending_view(files@), merge_options_allowed(opts), verdicts_of(answers)));
        assert(corpus_result_view(r) == checked_paths_outcome::<T>(fs, merge_options_allowed(opts), verdicts_of(answers)));
        assert(hook_answers(validator, sources@, given, answers));
    }
    r
}

/// loads and validates source files for one target, then assembles a corpus.
pub fn build_corpus_from_paths<T: TargetedLoader>(files: &[PendingSource], opts: Option<MergeOptions>) -> (r: Result<AethelCorpus<T>, MergerError>)
    ensures
        corpus_result_view(r) == paths_outcome::<T>(files@.map_values(|p: PendingSource| p@), merge_options_allowed(opts)),
        r matches Ok(c) ==> c.target == T::target_spec(),
{
    if files.len() == 0 {
        return Err(MergerError::InvalidInput(owned("at least one path is required for merge")));
    }
    let sources = match read_all(files) {
        Ok(s) => s,
        Err(e) => {
            return Err(MergerError::Loader(e));
        },
    };
    build_corpus_from_sources::<T>(sources.as_slice(), opts)
}

} // verus!

verus! {

/// every source becomes one document, in source order, with the source's
/// path as its path and the source's hash as its hash.
pub proof fn lemma_assemble_typed_paths<T: TargetedLoader>(srcs: Seq<(Seq<char>, Seq<char>)>, allowed: bool, label: Seq<char>)
    requires
        spec_assemble_typed::<T>(srcs, allowed, label) is Ok,
    ensures
        spec_assemble_typed::<T>(srcs, allowed, label)->Ok_0.len() == srcs.len(),
        forall|k: int| 0 <= k < srcs.len() ==> {
            &&& (#[trigger] spec_assemble_typed::<T>(srcs, allowed, label)->Ok_0[k]).source_path == srcs[k].0
            &&& spec_assemble_typed::<T>(srcs, allowed, label)->Ok_0[k].source_hash == source_hash(label, srcs[k].1)
        },
    decreases srcs.len(),
{
    if srcs.len() > 0 {
        lemma_assemble_typed_paths::<T>(srcs.drop_last(), allowed, label);
        let ds = spec_assemble_typed::<T>(srcs, allowed, label)->Ok_0;
        let ps = spec_assemble_typed::<T>(srcs.drop_last(), allowed, label)->Ok_0;
        assert forall|k: int| 0 <= k < srcs.len() implies {
            &&& (#[trigger] ds[k]).source_path == srcs[k].0
            &&& ds[k].source_hash == source_hash(label, srcs[k].1)
        } by {
            if k < srcs.len() - 1 {
                assert(ds[k] == ps[k]);
                assert(srcs.drop_last()[k] == srcs[k]);
            }
        }
    }
}

} // verus!

verus! {

/// the hashes of documents, in order.
pub open spec fn doc_hashes<M>(ds: Seq<SourceDocModel<M>>) -> Seq<Seq<char>> {
    ds.map_values(|d: SourceDocModel<M>| d.source_hash)
}

proof fn lemma_hash_count_is_count_in<M>(ds: Seq<SourceDocModel<M>>, h: Seq<char>)
    ensures
        hash_count(ds, h) == crate::corpus::utils::count_in(doc_hashes(ds), h),
    decreases ds.len(),
{
    if ds.len() > 0 {
        lemma_hash_count_is_count_in(ds.drop_last(), h);
        assert(doc_hashes(ds).drop_last() =~= doc_hashes(ds.drop_last()));
    }
}

proof fn lemma_assembled_ids<T: TargetedLoader>(srcs: Seq<(Seq<char>, Seq<char>)>, allowed: bool, label: Seq<char>)
    requires
        spec_assemble_typed::<T>(srcs, allowed, label) is Ok,
    ensures
        forall|k: int| 0 <= k < spec_assemble_typed::<T>(srcs, allowed, label)->Ok_0.len() ==> (#[trigger] spec_assemble_typed::<T>(
            srcs,
            allowed,
            label,
        )->Ok_0[k]).source_id == crate::corpus::utils::id_at(doc_hashes(spec_assemble_typed::<T>(srcs, allowed, label)->Ok_0), k),
    decreases srcs.len(),
{
    if srcs.len() > 0 {
        lemma_assemble_typed_paths::<T>(srcs, allowed, label);
        lemma_assembled_ids::<T>(srcs.drop_last(), allowed, label);
        let ds = spec_assemble_typed::<T>(srcs, allowed, label)->Ok_0;
        let ps = spec_assemble_typed::<T>(srcs.drop_last(), allowed, label)->Ok_0;
        lemma_assemble_typed_paths::<T>(srcs.drop_last(), allowed, label);
        assert(ds.drop_last() =~= ps);
        let hs = doc_hashes(ds);
        assert(doc_hashes(ps) =~= hs.drop_last());
        assert forall|k: int| 0 <= k < ds.len() implies (#[trigger] ds[k]).source_id == crate::corpus::utils::id_at(hs, k) by {
            if k < ds.len() - 1 {
                assert(ds[k] == ps[k]);
                assert(hs.take(k + 1) =~= doc_hashes(ps).take(k + 1));
            } else {
                lemma_hash_count_is_count_in(ps, ds[k].source_hash);
                assert(hs.take(k + 1).drop_last() =~= doc_hashes(ps));
                assert(hs.take(k + 1) =~= hs);
            }
        }
    }
}

/// every document of a merged corpus has its own source id: no two
/// documents share one, even when their contents are identical.
pub proof fn law_assembled_source_ids_distinct<T: TargetedLoader>(srcs: Seq<(Seq<char>, Seq<char>)>, allowed: bool, label: Seq<char>)
    requires
        spec_assemble_typed::<T>(srcs, allowed, label) is Ok,
    ensures
        forall|i: int, j: int|
            0 <= i < j < spec_assemble_typed::<T>(srcs, allowed, label)->Ok_0.len() ==> spec_assemble_typed::<T>(
                srcs,
                allowed,
                label,
            )->Ok_0[i].source_id != spec_assemble_typed::<T>(srcs, allowed, label)->Ok_0[j].source_id,
{
    let ds = spec_assemble_typed::<T>(srcs, allowed, label)->Ok_0;
    lemma_assembled_ids::<T>(srcs, allowed, label);
    lemma_assemble_typed_paths::<T>(srcs, allowed, label);
    let hs = doc_hashes(ds);
    assert forall|k: int| 0 <= k < hs.len() implies crate::corpus::utils::colon_free(#[trigger] hs[k]) by {
        crate::corpus::utils::lemma_hex_colon_free(
            crate::hashing::sha256_digest(vstd::utf8::encode_utf8(crate::hashing::hashed_text(label, srcs[k].1))),
        );
    }
    assert forall|i: int, j: int| 0 <= i < j < ds.len() implies ds[i].source_id != ds[j].source_id by {
        crate::corpus::utils::law_counted_ids_distinct(hs, i, j);
    }
}

} // verus!

verus! {

/// the path given to the `i`-th cast document.
pub open spec fn cast_path(i: nat) -> Seq<char> {
    "<aetheldoc:"@ + crate::text::decimal(i) + ">"@
}

/// the message for a document that could not be serialised.
pub open spec fn serialise_error_message(path: Seq<char>, err: Seq<char>) -> Seq<char> {
    "unable to serialise aethel document for source hashing at '"@ + path + "': "@ + err
}

/// the source documents that parsed documents become, each hashed from its
/// serialised text (`rendered`), or the first error: a document of another
/// target, or one whose serialisation failed.
pub open spec fn spec_cast<T: TargetedLoader>(
    docs: Seq<crate::loader::AethelDocModel<T::V>>,
    rendered: Seq<Result<Seq<char>, Seq<char>>>,
) -> Result<Seq<SourceDocModel<T::V>>, MergerErrModel>
    decreases docs.len(),
{
    if docs.len() == 0 || rendered.len() < docs.len() {
        Ok(Seq::<SourceDocModel<T::V>>::empty())
    } else {
        let k = (docs.len() - 1) as nat;
        match spec_cast::<T>(docs.drop_last(), rendered.take(k as int)) {
            Err(e) => Err(e),
            Ok(ds) => {
                let d = docs.last();
                if d.header.target != T::target_spec() {
                    Err(MergerErrModel::Loader(crate::loader::mismatch_error(T::target_spec(), d.header.target)))
                } else {
                    match rendered[k as int] {
                        Err(m) => Err(MergerErrModel::InvalidInput(serialise_error_message(cast_path(k), m))),
                        Ok(raw) => {
                            let h = source_hash(target_name(T::target_spec()), raw);
                            Ok(
                                ds.push(
                                    SourceDocModel {
                                        source_id: unique_source_id(h, hash_count(ds, h) + 1),
                                        source_hash: h,
                                        source_path: cast_path(k),
                                        header: d.header,
                                        data: d.data,
                                    },
                                ),
                            )
                        },
                    }
                }
            },
        }
    }
}

proof fn lemma_cast_error_sticks<T: TargetedLoader>(
    docs: Seq<crate::loader::AethelDocModel<T::V>>,
    rendered: Seq<Result<Seq<char>, Seq<char>>>,
    n: int,
)
    requires
        0 <= n <= docs.len(),
        docs.len() <= rendered.len(),
        spec_cast::<T>(docs.take(n), rendered.take(n)) is Err,
    ensures
        spec_cast::<T>(docs, rendered.take(docs.len() as int)) == spec_cast::<T>(docs.take(n), rendered.take(n)),
    decreases docs.len() - n,
{
    if n < docs.len() {
        assert(docs.take(n + 1).drop_last() =~= docs.take(n));
        assert(rendered.take(n + 1).take(n) =~= rendered.take(n));
        lemma_cast_error_sticks::<T>(docs, rendered, n + 1);
    } else {
        assert(docs.take(n) =~= docs);
    }
}

/// the views of parsed documents.
pub open spec fn doc_models<T: View>(s: Seq<AethelDoc<T>>) -> Seq<crate::loader::AethelDocModel<T::V>> {
    s.map_values(|d: AethelDoc<T>| d@)
}

/// the view of rendered texts.
pub open spec fn rendered_view(v: Seq<Result<String, String>>) -> Seq<Result<Seq<char>, Seq<char>>> {
    v.map_values(|r: Result<String, String>| crate::loader::read_view(r))
}

/// casts parsed aethel documents into source documents using merge hash/id
/// rules: `rendered[i]` is the serialised text of `documents[i]` (or the
/// serialiser's error), which is what gets hashed.
pub fn cast_aethel_docs_to_sources<T: TargetedLoader>(documents: Vec<AethelDoc<T>>, rendered: Vec<Result<String, String>>) -> (r: Result<
    Vec<SourceAethelDoc<T>>,
    MergerError,
>)
    requires
        documents@.len() == rendered@.len(),
    ensures
        docs_result_view(r) == spec_cast::<T>(
            doc_models(documents@),
            rendered_view(rendered@),
        ),
{
    let ghost all = doc_models(documents@);
    let ghost rv = rendered_view(rendered@);
    let n = documents.len();
    let mut rest = documents;
    let mut seen: Vec<(String, usize)> = Vec::new();
    let mut out: Vec<SourceAethelDoc<T>> = Vec::new();
    let mut index: usize = 0;
    let expected = T::target();
    proof {
        assert(all.take(0) =~= Seq::<crate::loader::AethelDocModel<T::V>>::empty());
        assert(docs_view(out@) =~= Seq::<SourceDocModel<T::V>>::empty());
        assert(doc_models(rest@) =~= all.skip(0));
    }
    while index < n
        invariant
            n == all.len(),
            n == rv.len(),
            rv == rendered_view(rendered@),
            all == doc_models(documents@),
            index <= n,
            expected == T::target_spec(),
            doc_models(rest@) == all.skip(index as int),
            spec_cast::<T>(all.take(index as int), rv.take(index as int)) == Ok::<Seq<SourceDocModel<T::V>>, MergerErrModel>(docs_view(out@)),
            out@.len() <= index,
            forall|h: Seq<char>| #[trigger] seen_count(seen@, h) == hash_count(docs_view(out@), h),
        decreases n - index,
    {
        let ghost pre = docs_view(out@);
        let ghost rest0 = rest@;
        proof {
            assert(all.take(index as int + 1).drop_last() =~= all.take(index as int));
            assert(rv.take(index as int + 1).take(index as int) =~= rv.take(index as int));
            assert(rest0.map_values(|d: AethelDoc<T>| d@)[0] == all[index as int]);
            assert(all.take(index as int + 1).last() == all[index as int]);
            assert(rv.take(index as int + 1)[index as int] == rv[index as int]);
        }
        proof {
            assert(rest0.map_values(|d: AethelDoc<T>| d@).len() == rest0.len());
            assert(all.skip(index as int).len() == n - index);
        }
        let document = rest.remove(0);
        proof {
            assert(rest@ == rest0.remove(0));
            assert forall|j: int| 0 <= j < rest@.len() implies #[trigger] doc_models(rest@)[j]
                == all.skip(index as int + 1)[j] by {
                assert(rest@[j] == rest0[j + 1]);
                assert(rest0.map_values(|d: AethelDoc<T>| d@)[j + 1] == all.skip(index as int)[j + 1]);
            }
            assert(doc_models(rest@) =~= all.skip(index as int + 1));
            assert(document == rest0[0]);
        }
        let ghost dv = document@;
        proof {
            assert(all.take(index as int + 1).last() == dv);
            assert(all.take(index as int + 1).len() == index + 1);
            assert(rv.take(index as int + 1).len() == index + 1);
        }
        if document.header.target != expected {
            proof {
                assert(spec_cast::<T>(all.take(index as int + 1), rv.take(index as int + 1)) == Err::<
                    Seq<SourceDocModel<T::V>>,
                    MergerErrModel,
                >(MergerErrModel::Loader(crate::loader::mismatch_error(T::target_spec(), dv.header.target))));
                lemma_cast_error_sticks::<T>(all, rv, index as int + 1);
                assert(rv.take(n as int) =~= rv);
            }
            return Err(MergerError::Loader(CorpusLoaderError::TargetMismatch {
                expected: owned(expected.as_str()),
                found: owned(document.header.target.as_str()),
            }));
        }
        let mut source_path = owned("<aetheldoc:");
        let digits = crate::text::decimal_string(index);
        crate::text::push_str(&mut source_path, digits.as_str());
        crate::text::push_str(&mut source_path, ">");
        let raw = match &rendered[index] {
            Ok(text) => text,
            Err(err) => {
                let mut m = owned("unable to serialise aethel document for source hashing at '");
                crate::text::push_str(&mut m, source_path.as_str());
                crate::text::push_str(&mut m, "': ");
                crate::text::push_str(&mut m, err.as_str());
                proof {
                    assert(rv[index as int] == crate::loader::read_view(rendered@[index as int]));
                    assert(spec_cast::<T>(all.take(index as int + 1), rv.take(index as int + 1)) == Err::<
                        Seq<SourceDocModel<T::V>>,
                        MergerErrModel,
                    >(MergerErrModel::InvalidInput(serialise_error_message(cast_path(index as nat), err@))));
                    lemma_cast_error_sticks::<T>(all, rv, index as int + 1);
                    assert(rv.take(n as int) =~= rv);
                }
                return Err(MergerError::InvalidInput(m));
            },
        };
        let source_hash = hash_source_content(expected.as_str(), raw.as_str());
        proof {
            lemma_hash_count_bound(pre, source_hash@);
        }
        let source_id = make_unique_source_id(source_hash.as_str(), &mut seen);
        let AethelDoc { header, data } = document;
        let doc = SourceAethelDoc { source_id, source_hash, source_path, header, data };
        out.push(doc);
        proof {
            assert(docs_view(out@) =~= pre.push(doc@));
            assert forall|h: Seq<char>| #[trigger] seen_count(seen@, h) == hash_count(docs_view(out@), h) by {
                assert(docs_view(out@).drop_last() =~= pre);
            }
        }
        index = index + 1;
    }
    proof {
        assert(all.take(n as int) =~= all);
        assert(rv.take(n as int) =~= rv);
    }
    Ok(out)
}

} // verus!
