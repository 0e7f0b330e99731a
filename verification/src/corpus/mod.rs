//! corpus assembly: source documents, pooled values and provenance.

pub mod error;
pub mod types;
pub mod utils;

use vstd::prelude::*;

use crate::corpus::error::{CorpusLoaderError, LoadErrorModel};
use crate::corpus::types::{Document, DocumentModel, MetadataModel, SectionModel, Target};
use crate::corpus::utils::{
    build_value_pools, counts_view, hash_source_content, make_unique_source_id,
    parse_document, pools_match_documents, seen_count, spec_parse_document, unique_source_id,
    CorpusLoaderOptions, LoadValidator,
};
use crate::hashing::source_hash;
use crate::text::{owned, push_str, str_eq};
use crate::toml_model::lookup;

verus! {

#[derive(Debug, Clone)]
/// tracks where one pooled value came from.
pub struct ValueProvenance {
    /// unique source identifier inside the corpus.
    pub source_id: String,
    /// source document title from `[header].title`.
    pub document_title: String,
    /// section name that contained this value.
    pub section: String,
    /// field name that contained this value.
    pub field: String,
}

/// the abstract value of a [`ValueProvenance`].
pub struct ProvenanceModel {
    pub source_id: Seq<char>,
    pub document_title: Seq<char>,
    pub section: Seq<char>,
    pub field: Seq<char>,
}

impl View for ValueProvenance {
    type V = ProvenanceModel;

    open spec fn view(&self) -> ProvenanceModel {
        ProvenanceModel {
            source_id: self.source_id@,
            document_title: self.document_title@,
            section: self.section@,
            field: self.field@,
        }
    }
}

impl ValueProvenance {
    /// a copy with the same view.
    pub fn duplicate(&self) -> (r: Self)
        ensures
            r@ == self@,
    {
        ValueProvenance {
            source_id: self.source_id.clone(),
            document_title: self.document_title.clone(),
            section: self.section.clone(),
            field: self.field.clone(),
        }
    }
}

/// the views of a list of provenance records.
pub open spec fn provenance_view(v: Seq<ValueProvenance>) -> Seq<ProvenanceModel> {
    v.map_values(|p: ValueProvenance| p@)
}

/// a copy of a list of provenance records.
pub fn copy_provenance(v: &Vec<ValueProvenance>) -> (r: Vec<ValueProvenance>)
    ensures
        provenance_view(r@) == provenance_view(v@),
{
    let mut out: Vec<ValueProvenance> = Vec::new();
    let mut i: usize = 0;
    while i < v.len()
        invariant
            i <= v@.len(),
            out@.len() == i,
            forall|j: int| 0 <= j < i ==> #[trigger] out@[j]@ == v@[j]@,
        decreases v@.len() - i,
    {
        out.push(v[i].duplicate());
        i = i + 1;
    }
    assert(provenance_view(out@) =~= provenance_view(v@));
    out
}

#[derive(Debug, Clone)]
/// one pooled value with provenance metadata.
pub struct PooledValue {
    /// string value extracted from one field entry.
    pub value: String,
    /// all origins that produced this value; merged when the same value appears in multiple sources.
    pub provenance: Vec<ValueProvenance>,
}

/// the abstract value of a [`PooledValue`].
pub struct PooledModel {
    pub value: Seq<char>,
    pub provenance: Seq<ProvenanceModel>,
}

impl View for PooledValue {
    type V = PooledModel;

    open spec fn view(&self) -> PooledModel {
        PooledModel { value: self.value@, provenance: provenance_view(self.provenance@) }
    }
}

/// the views of a list of pooled values.
pub open spec fn pooled_view(v: Seq<PooledValue>) -> Seq<PooledModel> {
    v.map_values(|p: PooledValue| p@)
}

#[derive(Debug, Clone)]
/// pooled values for one exact section and field pair.
pub struct ValuePool {
    /// section name for this pool.
    pub section: String,
    /// field name for this pool.
    pub field: String,
    /// pooled values in first-seen order.
    pub values: Vec<PooledValue>,
}

/// the abstract value of a [`ValuePool`].
pub struct PoolModel {
    pub section: Seq<char>,
    pub field: Seq<char>,
    pub values: Seq<PooledModel>,
}

impl View for ValuePool {
    type V = PoolModel;

    open spec fn view(&self) -> PoolModel {
        PoolModel { section: self.section@, field: self.field@, values: pooled_view(self.values@) }
    }
}

/// the views of a list of pools.
pub open spec fn pools_view(v: Seq<ValuePool>) -> Seq<PoolModel> {
    v.map_values(|p: ValuePool| p@)
}

impl ValuePool {
    /// a pool of the given values for one section and field pair.
    pub fn new(section: String, field: String, values: Vec<PooledValue>) -> (r: Self)
        ensures
            r@ == (PoolModel { section: section@, field: field@, values: pooled_view(values@) }),
    {
        ValuePool { section, field, values }
    }

    /// returns all pooled values in this pool.
    pub fn values(&self) -> (r: &[PooledValue])
        ensures
            pooled_view(r@) == self@.values,
    {
        self.values.as_slice()
    }
}

#[derive(Debug, Clone)]
/// a corpus of source documents for one target.
pub struct Corpus {
    /// target represented by all source documents.
    pub target: types::Target,
    /// source documents in first-seen order.
    pub documents: Vec<types::Document>,
    /// pools of values based of section -> field.
    pub pools: Vec<ValuePool>,
}

/// the views of a list of documents.
pub open spec fn documents_view(v: Seq<types::Document>) -> Seq<types::DocumentModel> {
    v.map_values(|d: types::Document| d@)
}

/// the index of the first element satisfying `p`, if any.
pub open spec fn first_index<A>(s: Seq<A>, p: spec_fn(A) -> bool) -> Option<int> {
    if exists|i: int| 0 <= i < s.len() && p(s[i]) {
        Some(choose|i: int| 0 <= i < s.len() && p(s[i]) && forall|j: int| 0 <= j < i ==> !p(s[j]))
    } else {
        None
    }
}

/// the first index satisfying `p` is what `first_index` picks.
pub proof fn lemma_first_index<A>(s: Seq<A>, p: spec_fn(A) -> bool, i: int)
    requires
        0 <= i < s.len(),
        p(s[i]),
        forall|j: int| 0 <= j < i ==> !p(s[j]),
    ensures
        first_index(s, p) == Some(i),
{
    let k = choose|k: int| 0 <= k < s.len() && p(s[k]) && forall|j: int| 0 <= j < k ==> !p(s[j]);
    assert(0 <= k < s.len() && p(s[k]) && forall|j: int| 0 <= j < k ==> !p(s[j]));
    if k < i {
        assert(!p(s[k]));
    } else if k > i {
        assert(!p(s[i]));
    }
}

/// no element satisfying `p` means `first_index` finds nothing.
pub proof fn lemma_first_index_none<A>(s: Seq<A>, p: spec_fn(A) -> bool)
    requires
        forall|j: int| 0 <= j < s.len() ==> !p(s[j]),
    ensures
        first_index(s, p) is None,
{
}

impl Corpus {
    /// returns the target represented by this corpus.
    pub fn target(&self) -> (r: &str)
        ensures
            r@ == self.target@,
    {
        self.target.as_str()
    }

    /// returns all source ids in corpus order.
    pub fn source_ids(&self) -> (r: Vec<&str>)
        ensures
            r@.len() == self.documents@.len(),
            forall|i: int| 0 <= i < r@.len() ==> #[trigger] r@[i]@ == self.documents@[i].source_id@,
    {
        let mut out: Vec<&str> = Vec::new();
        let mut i: usize = 0;
        while i < self.documents.len()
            invariant
                i <= self.documents@.len(),
                out@.len() == i,
                forall|j: int| 0 <= j < i ==> #[trigger] out@[j]@ == self.documents@[j].source_id@,
            decreases self.documents@.len() - i,
        {
            out.push(self.documents[i].source_id.as_str());
            i = i + 1;
        }
        out
    }

    /// returns all source paths in corpus order.
    pub fn source_paths(&self) -> (r: Vec<&str>)
        ensures
            r@.len() == self.documents@.len(),
            forall|i: int| 0 <= i < r@.len() ==> #[trigger] r@[i]@ == self.documents@[i].source_path@,
    {
        let mut out: Vec<&str> = Vec::new();
        let mut i: usize = 0;
        while i < self.documents.len()
            invariant
                i <= self.documents@.len(),
                out@.len() == i,
                forall|j: int| 0 <= j < i ==> #[trigger] out@[j]@ == self.documents@[j].source_path@,
            decreases self.documents@.len() - i,
        {
            out.push(self.documents[i].source_path.as_str());
            i = i + 1;
        }
        out
    }

    /// finds one source document by source id.
    pub fn find_source(&self, source_id: &str) -> (r: Option<&types::Document>)
        ensures
            match first_index(documents_view(self.documents@), |d: types::DocumentModel| d.source_id == source_id@) {
                Some(i) => r is Some && r->0@ == documents_view(self.documents@)[i],
                None => r is None,
            },
    {
        let ghost ds = documents_view(self.documents@);
        let ghost p = |d: types::DocumentModel| d.source_id == source_id@;
        let mut i: usize = 0;
        while i < self.documents.len()
            invariant
                i <= self.documents@.len(),
                ds == documents_view(self.documents@),
                p == (|d: types::DocumentModel| d.source_id == source_id@),
                forall|j: int| 0 <= j < i ==> !p(#[trigger] ds[j]),
            decreases self.documents@.len() - i,
        {
            if str_eq(self.documents[i].source_id.as_str(), source_id) {
                proof {
                    lemma_first_index(ds, p, i as int);
                }
                return Some(&self.documents[i]);
            }
            i = i + 1;
        }
        proof {
            lemma_first_index_none(ds, p);
        }
        None
    }

    /// returns pooled values for one exact section and field pair.
    pub fn pooled_values_for_field_section(&self, field: &str, section: &str) -> (r: Option<&[PooledValue]>)
        ensures
            match first_index(pools_view(self.pools@), |q: PoolModel| q.field == field@ && q.section == section@) {
                Some(i) => r is Some && pooled_view(r->0@) == pools_view(self.pools@)[i].values,
                None => r is None,
            },
    {
        let ghost ps = pools_view(self.pools@);
        let ghost p = |q: PoolModel| q.field == field@ && q.section == section@;
        let mut i: usize = 0;
        while i < self.pools.len()
            invariant
                i <= self.pools@.len(),
                ps == pools_view(self.pools@),
                p == (|q: PoolModel| q.field == field@ && q.section == section@),
                forall|j: int| 0 <= j < i ==> !p(#[trigger] ps[j]),
            decreases self.pools@.len() - i,
        {
            if str_eq(self.pools[i].field.as_str(), field) && str_eq(self.pools[i].section.as_str(), section) {
                proof {
                    lemma_first_index(ps, p, i as int);
                }
                return Some(self.pools[i].values());
            }
            i = i + 1;
        }
        proof {
            lemma_first_index_none(ps, p);
        }
        None
    }
}

// ─── combining and assembling ────────────────────────────────────────────────

/// how many documents carry the hash `h`.
pub open spec fn count_hash(ds: Seq<DocumentModel>, h: Seq<char>) -> nat
    decreases ds.len(),
{
    if ds.len() == 0 {
        0
    } else {
        count_hash(ds.drop_last(), h) + if ds.last().source_hash == h {
            1nat
        } else {
            0nat
        }
    }
}

proof fn lemma_count_hash_bound(ds: Seq<DocumentModel>, h: Seq<char>)
    ensures
        count_hash(ds, h) <= ds.len(),
    decreases ds.len(),
{
    if ds.len() > 0 {
        lemma_count_hash_bound(ds.drop_last(), h);
    }
}

/// `d` with its source id replaced.
pub open spec fn with_source_id(d: DocumentModel, id: Seq<char>) -> DocumentModel {
    DocumentModel { source_id: id, ..d }
}

/// the documents with source ids assigned afresh from their hashes: the first
/// document with a hash gets the hash, later ones the hash and their count.
pub open spec fn reassign_source_ids(ds: Seq<DocumentModel>) -> Seq<DocumentModel>
    decreases ds.len(),
{
    if ds.len() == 0 {
        Seq::<DocumentModel>::empty()
    } else {
        reassign_source_ids(ds.drop_last()).push(
            with_source_id(ds.last(), unique_source_id(ds.last().source_hash, count_hash(ds, ds.last().source_hash))),
        )
    }
}

proof fn lemma_reassign_len(ds: Seq<DocumentModel>)
    ensures
        reassign_source_ids(ds).len() == ds.len(),
    decreases ds.len(),
{
    if ds.len() > 0 {
        lemma_reassign_len(ds.drop_last());
    }
}

/// reassigning ids keeps every hash, so the hash counts are those of the input.
proof fn lemma_reassign_hashes(ds: Seq<DocumentModel>)
    ensures
        reassign_source_ids(ds).len() == ds.len(),
        forall|i: int| 0 <= i < ds.len() ==> #[trigger] reassign_source_ids(ds)[i].source_hash == ds[i].source_hash,
    decreases ds.len(),
{
    lemma_reassign_len(ds);
    if ds.len() > 0 {
        lemma_reassign_hashes(ds.drop_last());
        assert forall|i: int| 0 <= i < ds.len() implies #[trigger] reassign_source_ids(ds)[i].source_hash == ds[i].source_hash by {
            if i < ds.len() - 1 {
                assert(reassign_source_ids(ds)[i] == reassign_source_ids(ds.drop_last())[i]);
            }
        }
    }
}

/// whether any document is titled `t`.
pub open spec fn has_title(ds: Seq<DocumentModel>, t: Seq<char>) -> bool {
    exists|i: int| 0 <= i < ds.len() && #[trigger] ds[i].metadata.title == t
}

impl Corpus {
    /// combines two corpora with the same target into one, reassigning duplicate source ids.
    pub fn combine(self, other: Corpus) -> (r: Self)
        requires
            self.target@ == other.target@,
        ensures
            r.target@ == self.target@,
            documents_view(r.documents@) == reassign_source_ids(
                documents_view(self.documents@) + documents_view(other.documents@),
            ),
            pools_match_documents(pools_view(r.pools@), documents_view(r.documents@)),
    {
        let Corpus { target, documents: mut documents, pools: _ } = self;
        let Corpus { target: _, documents: mut other_documents, pools: _ } = other;
        let ghost all = documents_view(documents@) + documents_view(other_documents@);
        documents.append(&mut other_documents);
        assert(documents_view(documents@) =~= all);
        let mut seen: Vec<(String, usize)> = Vec::new();
        let mut out: Vec<Document> = Vec::new();
        let mut i: usize = 0;
        proof {
            assert(all.take(0) =~= Seq::<DocumentModel>::empty());
            assert(documents_view(out@) =~= Seq::<DocumentModel>::empty());
        }
        while i < documents.len()
            invariant
                i <= documents@.len(),
                all == documents_view(documents@),
                documents_view(out@) == reassign_source_ids(all.take(i as int)),
                forall|h: Seq<char>| #[trigger] seen_count(seen@, h) == count_hash(all.take(i as int), h),
            decreases documents@.len() - i,
        {
            let ghost prefix = all.take(i as int + 1);
            proof {
                assert(prefix.drop_last() =~= all.take(i as int));
                assert(prefix.last() == documents@[i as int]@);
                lemma_count_hash_bound(all.take(i as int), documents@[i as int].source_hash@);
                assert(seen_count(seen@, documents@[i as int].source_hash@) < usize::MAX);
            }
            let id = make_unique_source_id(documents[i].source_hash.as_str(), &mut seen);
            let mut d = documents[i].duplicate();
            d.source_id = id;
            let ghost prev = out@;
            out.push(d);
            proof {
                assert(documents_view(out@) =~= documents_view(prev).push(d@));
                assert forall|h: Seq<char>| #[trigger] seen_count(seen@, h) == count_hash(prefix, h) by {}
            }
            i = i + 1;
        }
        proof {
            assert(all.take(documents@.len() as int) =~= all);
        }
        let pools = build_value_pools(out.as_slice());
        Corpus { target, documents: out, pools }
    }
}

/// one queued source of a [`CorpusBuilder`].
pub enum PendingSource {
    /// in-memory TOML text and the name it is known by.
    Str { name: String, raw: String },
    /// a file that could not be read, with the rendered io error.
    Unreadable { path: String, message: String },
}

/// the abstract value of a [`PendingSource`].
pub enum PendingModel {
    Str { name: Seq<char>, raw: Seq<char> },
    Unreadable { path: Seq<char>, message: Seq<char> },
}

impl View for PendingSource {
    type V = PendingModel;

    open spec fn view(&self) -> PendingModel {
        match self {
            PendingSource::Str { name, raw } => PendingModel::Str { name: name@, raw: raw@ },
            PendingSource::Unreadable { path, message } => PendingModel::Unreadable {
                path: path@,
                message: message@,
            },
        }
    }
}

/// the message for a repeated title when repeated titles are not allowed.
pub open spec fn duplicate_title_message(title: Seq<char>) -> Seq<char> {
    "duplicate header.title '"@ + title
        + "' is not allowed when identical_title_allowed is false"@
}

/// the message for a build without sources.
pub open spec fn no_sources_message() -> Seq<char> {
    "at least one source is required to build a corpus"@
}

/// the documents after taking one more source, or the error it causes.
pub open spec fn assemble_step(
    target: Seq<char>,
    opts: CorpusLoaderOptions,
    docs: Seq<DocumentModel>,
    src: PendingModel,
) -> Result<Seq<DocumentModel>, LoadErrorModel> {
    match src {
        PendingModel::Unreadable { path, message } => Err(
            LoadErrorModel::Read { path: Some(path), source: message },
        ),
        PendingModel::Str { name, raw } => match spec_parse_document(name, raw) {
            Err(e) => Err(e),
            Ok((meta, sections)) => if meta.target != target {
                if opts.skip_source_with_target_mismatch {
                    Ok(docs)
                } else {
                    Err(LoadErrorModel::TargetMismatch { expected: target, found: meta.target })
                }
            } else if !opts.identical_title_allowed && has_title(docs, meta.title) {
                Err(LoadErrorModel::OptionViolation(duplicate_title_message(meta.title)))
            } else {
                let h = source_hash(target, raw);
                Ok(
                    docs.push(
                        DocumentModel {
                            metadata: meta,
                            sections,
                            source_id: unique_source_id(h, count_hash(docs, h) + 1),
                            source_hash: h,
                            source_path: name,
                        },
                    ),
                )
            },
        },
    }
}

/// the documents that the sources yield in order, or the first error.
pub open spec fn assemble(target: Seq<char>, opts: CorpusLoaderOptions, srcs: Seq<PendingModel>) -> Result<Seq<DocumentModel>, LoadErrorModel>
    decreases srcs.len(),
{
    if srcs.len() == 0 {
        Ok(Seq::<DocumentModel>::empty())
    } else {
        match assemble(target, opts, srcs.drop_last()) {
            Err(e) => Err(e),
            Ok(docs) => assemble_step(target, opts, docs, srcs.last()),
        }
    }
}

proof fn lemma_assemble_error_sticks(target: Seq<char>, opts: CorpusLoaderOptions, srcs: Seq<PendingModel>, n: int)
    requires
        0 <= n <= srcs.len(),
        assemble(target, opts, srcs.take(n)) is Err,
    ensures
        assemble(target, opts, srcs) == assemble(target, opts, srcs.take(n)),
    decreases srcs.len() - n,
{
    if n < srcs.len() {
        assert(srcs.take(n + 1).drop_last() =~= srcs.take(n));
        lemma_assemble_error_sticks(target, opts, srcs, n + 1);
    } else {
        assert(srcs.take(n) =~= srcs);
    }
}

/// the hook's answer about the `k`-th document it is asked about:
/// `verdicts[k]`, or acceptance where none is given.
pub open spec fn load_verdict_at(verdicts: Seq<Option<LoadErrorModel>>, k: int) -> Option<LoadErrorModel> {
    if 0 <= k < verdicts.len() {
        verdicts[k]
    } else {
        None
    }
}

/// the verdicts that the hook's answers give: `None` for acceptance, the
/// error for a rejection.
pub open spec fn load_verdicts(answers: Seq<Result<(), CorpusLoaderError>>) -> Seq<Option<LoadErrorModel>> {
    answers.map_values(|a: Result<(), CorpusLoaderError>| match a {
        Ok(_) => None,
        Err(e) => Some(e@),
    })
}

/// the sources assembled in order when the hook answers the `k`-th document
/// it is asked about with `load_verdict_at(verdicts, k)`: the outcome, and
/// the documents the hook was asked about. The hook is asked about each
/// document that passed every other check, just before it would be added.
pub open spec fn checked_assemble(
    target: Seq<char>,
    opts: CorpusLoaderOptions,
    srcs: Seq<PendingModel>,
    verdicts: Seq<Option<LoadErrorModel>>,
) -> (Result<Seq<DocumentModel>, LoadErrorModel>, Seq<DocumentModel>)
    decreases srcs.len(),
{
    if srcs.len() == 0 {
        (Ok(Seq::<DocumentModel>::empty()), Seq::<DocumentModel>::empty())
    } else {
        let (prev, asked) = checked_assemble(target, opts, srcs.drop_last(), verdicts);
        match prev {
            Err(e) => (Err(e), asked),
            Ok(docs) => match assemble_step(target, opts, docs, srcs.last()) {
                Err(e) => (Err(e), asked),
                Ok(next) => if next.len() > docs.len() {
                    match load_verdict_at(verdicts, asked.len() as int) {
                        Some(e) => (Err(e), asked.push(next.last())),
                        None => (Ok(next), asked.push(next.last())),
                    }
                } else {
                    (Ok(next), asked)
                },
            },
        }
    }
}

/// a step of assembly adds at most one document.
proof fn lemma_assemble_step_grows(target: Seq<char>, opts: CorpusLoaderOptions, docs: Seq<DocumentModel>, src: PendingModel)
    ensures
        assemble_step(target, opts, docs, src) matches Ok(next) ==> next == docs || (next.len() == docs.len() + 1 && next.drop_last() == docs),
{
    if let Ok(next) = assemble_step(target, opts, docs, src) {
        if next.len() > docs.len() {
            assert(next.drop_last() =~= docs);
        }
    }
}

/// with a hook that accepts everything, the outcome is that of assembly without one.
proof fn lemma_checked_accepting(target: Seq<char>, opts: CorpusLoaderOptions, srcs: Seq<PendingModel>)
    ensures
        checked_assemble(target, opts, srcs, Seq::empty()).0 == assemble(target, opts, srcs),
    decreases srcs.len(),
{
    if srcs.len() > 0 {
        lemma_checked_accepting(target, opts, srcs.drop_last());
    }
}

/// the hook is asked about more documents only as more sources are taken.
proof fn lemma_checked_asked_grows(target: Seq<char>, opts: CorpusLoaderOptions, srcs: Seq<PendingModel>, verdicts: Seq<Option<LoadErrorModel>>)
    requires
        srcs.len() > 0,
    ensures
        checked_assemble(target, opts, srcs.drop_last(), verdicts).1.len() <= checked_assemble(target, opts, srcs, verdicts).1.len(),
{
}

/// answers on documents the hook is never asked about change nothing, and
/// acceptances are as good as no answer.
proof fn lemma_checked_unasked(target: Seq<char>, opts: CorpusLoaderOptions, srcs: Seq<PendingModel>, verdicts: Seq<Option<LoadErrorModel>>)
    requires
        forall|k: int|
            0 <= k < checked_assemble(target, opts, srcs, Seq::empty()).1.len() ==> (#[trigger] load_verdict_at(verdicts, k)) is None,
    ensures
        checked_assemble(target, opts, srcs, verdicts) == checked_assemble(target, opts, srcs, Seq::empty()),
    decreases srcs.len(),
{
    if srcs.len() > 0 {
        lemma_checked_asked_grows(target, opts, srcs, Seq::empty());
        lemma_checked_unasked(target, opts, srcs.drop_last(), verdicts);
        let (prev, asked) = checked_assemble(target, opts, srcs.drop_last(), Seq::empty());
        if let Ok(docs) = prev {
            if let Ok(next) = assemble_step(target, opts, docs, srcs.last()) {
                if next.len() > docs.len() {
                    assert(load_verdict_at(verdicts, asked.len() as int) is None);
                }
            }
        }
    }
}

/// once the assembly fails, later sources change nothing.
proof fn lemma_checked_sticks(
    target: Seq<char>,
    opts: CorpusLoaderOptions,
    srcs: Seq<PendingModel>,
    verdicts: Seq<Option<LoadErrorModel>>,
    n: int,
)
    requires
        0 <= n <= srcs.len(),
        checked_assemble(target, opts, srcs.take(n), verdicts).0 is Err,
    ensures
        checked_assemble(target, opts, srcs, verdicts) == checked_assemble(target, opts, srcs.take(n), verdicts),
    decreases srcs.len() - n,
{
    if n < srcs.len() {
        assert(srcs.take(n + 1).drop_last() =~= srcs.take(n));
        lemma_checked_sticks(target, opts, srcs, verdicts, n + 1);
    } else {
        assert(srcs.take(n) =~= srcs);
    }
}

/// answers that all accept are as good as no answers.
proof fn lemma_build_all_accepted(
    target: Seq<char>,
    opts: CorpusLoaderOptions,
    srcs: Seq<PendingModel>,
    answers: Seq<Result<(), CorpusLoaderError>>,
)
    requires
        forall|k: int| 0 <= k < answers.len() ==> (#[trigger] answers[k]) is Ok,
    ensures
        checked_assemble(target, opts, srcs, load_verdicts(answers)) == checked_assemble(target, opts, srcs, Seq::empty()),
{
    let vs = load_verdicts(answers);
    assert forall|k: int| 0 <= k < checked_assemble(target, opts, srcs, Seq::empty()).1.len() implies (#[trigger] load_verdict_at(
        vs,
        k,
    )) is None by {
        if 0 <= k < answers.len() {
            assert(answers[k] is Ok);
        }
    }
    lemma_checked_unasked(target, opts, srcs, vs);
}

/// the outcome when source `i` fails a check of its own while every earlier
/// answer of the hook accepted.
proof fn lemma_build_failed_step(
    target: Seq<char>,
    opts: CorpusLoaderOptions,
    srcs: Seq<PendingModel>,
    i: int,
    given: Seq<Document>,
    answers: Seq<Result<(), CorpusLoaderError>>,
    tracked_given: bool,
)
    requires
        0 <= i < srcs.len(),
        assemble(target, opts, srcs.take(i + 1)) is Err,
        forall|k: int| 0 <= k < answers.len() ==> (#[trigger] answers[k]) is Ok,
        tracked_given ==> documents_view(given) == checked_assemble(target, opts, srcs.take(i), Seq::empty()).1,
    ensures
        checked_assemble(target, opts, srcs, load_verdicts(answers)).0 == assemble(target, opts, srcs),
        tracked_given ==> checked_assemble(target, opts, srcs, load_verdicts(answers)).1 == documents_view(given),
{
    lemma_build_all_accepted(target, opts, srcs, answers);
    lemma_checked_accepting(target, opts, srcs);
    lemma_checked_accepting(target, opts, srcs.take(i));
    lemma_checked_accepting(target, opts, srcs.take(i + 1));
    assert(srcs.take(i + 1).drop_last() =~= srcs.take(i));
    lemma_checked_sticks(target, opts, srcs, Seq::empty(), i + 1);
}

/// the outcome when the hook rejects the document of source `i`, having
/// accepted every earlier one.
proof fn lemma_build_rejected(
    target: Seq<char>,
    opts: CorpusLoaderOptions,
    srcs: Seq<PendingModel>,
    i: int,
    given: Seq<Document>,
    answers: Seq<Result<(), CorpusLoaderError>>,
    docs0: Seq<DocumentModel>,
    d: DocumentModel,
)
    requires
        0 <= i < srcs.len(),
        answers.len() == given.len() > 0,
        answers.last() is Err,
        forall|k: int| 0 <= k < answers.len() - 1 ==> (#[trigger] answers[k]) is Ok,
        documents_view(given.drop_last()) == checked_assemble(target, opts, srcs.take(i), Seq::empty()).1,
        given.last()@ == d,
        assemble(target, opts, srcs.take(i)) == Ok::<Seq<DocumentModel>, LoadErrorModel>(docs0),
        assemble_step(target, opts, docs0, srcs[i]) == Ok::<Seq<DocumentModel>, LoadErrorModel>(docs0.push(d)),
    ensures
        checked_assemble(target, opts, srcs, load_verdicts(answers)) == (
            Err::<Seq<DocumentModel>, LoadErrorModel>(answers.last()->Err_0@),
            documents_view(given),
        ),
{
    let vs = load_verdicts(answers);
    lemma_checked_accepting(target, opts, srcs.take(i));
    assert forall|k: int| 0 <= k < checked_assemble(target, opts, srcs.take(i), Seq::empty()).1.len() implies (
    #[trigger] load_verdict_at(vs, k)) is None by {
        assert(answers[k] is Ok);
    }
    lemma_checked_unasked(target, opts, srcs.take(i), vs);
    assert(srcs.take(i + 1).drop_last() =~= srcs.take(i));
    assert(srcs.take(i + 1).last() == srcs[i]);
    assert(vs[answers.len() - 1] == Some(answers.last()->Err_0@));
    assert(documents_view(given) =~= documents_view(given.drop_last()).push(d));
    assert(docs0.push(d).last() == d);
    lemma_checked_sticks(target, opts, srcs, vs, i + 1);
}

/// `answers[k]` is what `validator` may answer when asked about `given[k]`.
pub open spec fn load_hook_answers<V: LoadValidator>(
    validator: &V,
    given: Seq<Document>,
    answers: Seq<Result<(), CorpusLoaderError>>,
) -> bool {
    &&& given.len() == answers.len()
    &&& forall|k: int| 0 <= k < given.len() ==> #[trigger] call_ensures(V::validate, (validator, &given[k]), answers[k])
}

/// incremental builder for assembling a `Corpus` from any mix of files and in-memory strings.
///
/// obtain one via [`Corpus::builder`].
pub struct CorpusBuilder {
    target: String,
    opts: CorpusLoaderOptions,
    validator: Option<Box<dyn LoadValidator>>,
    pending: Vec<PendingSource>,
}

/// the abstract state of a [`CorpusBuilder`].
pub struct BuilderModel {
    pub target: Seq<char>,
    pub opts: CorpusLoaderOptions,
    pub validator: Option<Box<dyn LoadValidator>>,
    pub pending: Seq<PendingModel>,
}

impl View for CorpusBuilder {
    type V = BuilderModel;

    closed spec fn view(&self) -> BuilderModel {
        BuilderModel {
            target: self.target@,
            opts: self.opts,
            validator: self.validator,
            pending: self.pending@.map_values(|p: PendingSource| p@),
        }
    }
}

/// the view of a build outcome.
pub open spec fn built_view(r: Result<Corpus, CorpusLoaderError>) -> Result<Seq<DocumentModel>, LoadErrorModel> {
    match r {
        Ok(c) => Ok(documents_view(c.documents@)),
        Err(e) => Err(e@),
    }
}

impl Corpus {
    /// returns a new corpus builder for the given target.
    pub fn builder(target: &str) -> (r: CorpusBuilder)
        ensures
            r@ == (BuilderModel {
                target: target@,
                opts: CorpusLoaderOptions { identical_title_allowed: true, skip_source_with_target_mismatch: false },
                validator: None,
                pending: Seq::empty(),
            }),
    {
        CorpusBuilder::new(owned(target))
    }
}

impl CorpusBuilder {
    /// a builder for `target` with default options, no validator and no sources.
    pub fn new(target: String) -> (r: Self)
        ensures
            r@ == (BuilderModel {
                target: target@,
                opts: CorpusLoaderOptions { identical_title_allowed: true, skip_source_with_target_mismatch: false },
                validator: None,
                pending: Seq::empty(),
            }),
    {
        let r = CorpusBuilder {
            target,
            opts: CorpusLoaderOptions { identical_title_allowed: true, skip_source_with_target_mismatch: false },
            validator: None,
            pending: Vec::new(),
        };
        assert(r@.pending =~= Seq::<PendingModel>::empty());
        r
    }

    /// queues one in-memory raw TOML string to be parsed when [`build`](Self::build) is called.
    pub fn add_str(self, name: &str, raw: &str) -> (r: Self)
        ensures
            r@ == (BuilderModel {
                pending: self@.pending.push(PendingModel::Str { name: name@, raw: raw@ }),
                ..self@
            }),
    {
        let mut b = self;
        b.pending.push(PendingSource::Str { name: owned(name), raw: owned(raw) });
        assert(b@.pending =~= self@.pending.push(PendingModel::Str { name: name@, raw: raw@ }));
        b
    }

    /// queues a file that could not be read; [`build`](Self::build) reports
    /// it as a read error at its place among the sources.
    pub fn add_unreadable(self, path: &str, message: &str) -> (r: Self)
        ensures
            r@ == (BuilderModel {
                pending: self@.pending.push(PendingModel::Unreadable { path: path@, message: message@ }),
                ..self@
            }),
    {
        let mut b = self;
        b.pending.push(PendingSource::Unreadable { path: owned(path), message: owned(message) });
        assert(b@.pending =~= self@.pending.push(PendingModel::Unreadable { path: path@, message: message@ }));
        b
    }

    /// overrides the default load options.
    pub fn with_options(self, opts: CorpusLoaderOptions) -> (r: Self)
        ensures
            r@ == (BuilderModel { opts, ..self@ }),
    {
        let mut b = self;
        b.opts = opts;
        b
    }

    /// attaches a custom validation hook applied to each document before it is accepted.
    pub fn with_validator(self, validator: Box<dyn LoadValidator>) -> (r: Self)
        ensures
            r@ == (BuilderModel { validator: Some(validator), ..self@ }),
    {
        let mut b = self;
        b.validator = Some(validator);
        b
    }

    /// resolves all queued sources and assembles them into a [`Corpus`].
    ///
    /// without a validator the outcome is exactly `assemble` of the queued
    /// sources; a validator can only turn a success into a rejection.
    pub fn build(self) -> (r: Result<Corpus, CorpusLoaderError>)
        ensures
            self@.pending.len() == 0 ==> (r matches Err(e) && e@ == LoadErrorModel::InvalidInput(no_sources_message())),
            self@.pending.len() > 0 && self@.validator is None ==> built_view(r) == assemble(self@.target, self@.opts, self@.pending),
            self@.pending.len() > 0 && assemble(self@.target, self@.opts, self@.pending) is Err ==> r is Err,
            r matches Ok(c) ==> {
                &&& c.target@ == self@.target
                &&& built_view(r) == assemble(self@.target, self@.opts, self@.pending)
                &&& pools_match_documents(pools_view(c.pools@), documents_view(c.documents@))
            },
            self@.pending.len() > 0 ==> (self@.validator matches Some(v) ==> exists|
                given: Seq<Document>,
                answers: Seq<Result<(), CorpusLoaderError>>,
            |
                #[trigger] load_hook_answers(&v, given, answers) && checked_assemble(
                    self@.target,
                    self@.opts,
                    self@.pending,
                    load_verdicts(answers),
                ) == (built_view(r), documents_view(given))),
    {
        if self.pending.len() == 0 {
            return Err(CorpusLoaderError::InvalidInput(owned("at least one source is required to build a corpus")));
        }
        let ghost srcs = self@.pending;
        let ghost target = self@.target;
        let ghost opts = self.opts;
        let ghost none = Seq::<Option<LoadErrorModel>>::empty();
        let ghost mut given: Seq<Document> = Seq::empty();
        let ghost mut answers: Seq<Result<(), CorpusLoaderError>> = Seq::empty();
        let mut seen: Vec<(String, usize)> = Vec::new();
        let mut documents: Vec<Document> = Vec::new();
        let mut i: usize = 0;
        proof {
            assert(srcs.take(0) =~= Seq::<PendingModel>::empty());
            assert(documents_view(documents@) =~= Seq::<DocumentModel>::empty());
            assert(documents_view(given) =~= Seq::<DocumentModel>::empty());
        }
        while i < self.pending.len()
            invariant
                i <= self.pending@.len(),
                srcs == self@.pending,
                target == self@.target,
                opts == self@.opts,
                srcs == self.pending@.map_values(|p: PendingSource| p@),
                target == self.target@,
                opts == self.opts,
                assemble(target, opts, srcs.take(i as int)) == Ok::<Seq<DocumentModel>, LoadErrorModel>(documents_view(documents@)),
                documents@.len() <= i,
                forall|h: Seq<char>| #[trigger] seen_count(seen@, h) == count_hash(documents_view(documents@), h),
                none == Seq::<Option<LoadErrorModel>>::empty(),
                answers.len() == given.len(),
                forall|k: int| 0 <= k < answers.len() ==> (#[trigger] answers[k]) is Ok,
                self.validator matches Some(v) ==> load_hook_answers(&v, given, answers),
                self.validator is Some ==> documents_view(given) == checked_assemble(target, opts, srcs.take(i as int), none).1,
            decreases self.pending@.len() - i,
        {
            let ghost docs0 = documents_view(documents@);
            proof {
                assert(srcs.take(i as int + 1).drop_last() =~= srcs.take(i as int));
                assert(srcs.take(i as int + 1).last() == self.pending@[i as int]@);
                assert(srcs.take(self.pending@.len() as int) =~= srcs);
            }
            match &self.pending[i] {
                PendingSource::Unreadable { path, message } => {
                    proof {
                        lemma_assemble_error_sticks(target, opts, srcs, i as int + 1);
                                lemma_build_failed_step(target, opts, srcs, i as int, given, answers, self.validator is Some);
                    }
                    return Err(CorpusLoaderError::ReadError { path: Some(path.clone()), source: message.clone() });
                },
                PendingSource::Str { name, raw } => {
                    let (metadata, sections) = match parse_document(name.as_str(), raw.as_str()) {
                        Ok(p) => p,
                        Err(e) => {
                            proof {
                                lemma_assemble_error_sticks(target, opts, srcs, i as int + 1);
                                lemma_build_failed_step(target, opts, srcs, i as int, given, answers, self.validator is Some);
                            }
                            return Err(e);
                        },
                    };
                    if !str_eq(metadata.target.as_str(), self.target.as_str()) {
                        if self.opts.skip_source_with_target_mismatch {
                            proof {
                                lemma_checked_accepting(target, opts, srcs.take(i as int));
                                lemma_checked_accepting(target, opts, srcs.take(i as int + 1));
                            }
                            i = i + 1;
                            continue;
                        } else {
                            proof {
                                lemma_assemble_error_sticks(target, opts, srcs, i as int + 1);
                                lemma_build_failed_step(target, opts, srcs, i as int, given, answers, self.validator is Some);
                            }
                            return Err(CorpusLoaderError::TargetMismatch {
                                expected: self.target.clone(),
                                found: metadata.target,
                            });
                        }
                    }
                    if !self.opts.identical_title_allowed && title_taken(&documents, metadata.title.as_str()) {
                        proof {
                            lemma_assemble_error_sticks(target, opts, srcs, i as int + 1);
                                lemma_build_failed_step(target, opts, srcs, i as int, given, answers, self.validator is Some);
                        }
                        return Err(CorpusLoaderError::OptionViolation(duplicate_title(metadata.title.as_str())));
                    }
                    let source_hash = hash_source_content(self.target.as_str(), raw.as_str());
                    proof {
                        lemma_count_hash_bound(docs0, source_hash@);
                    }
                    let source_id = make_unique_source_id(source_hash.as_str(), &mut seen);
                    let doc = Document {
                        metadata,
                        sections,
                        source_id,
                        source_hash,
                        source_path: name.clone(),
                    };
                    proof {
                        lemma_assemble_step_grows(target, opts, docs0, srcs[i as int]);
                        assert(assemble_step(target, opts, docs0, srcs[i as int]) == Ok::<Seq<DocumentModel>, LoadErrorModel>(docs0.push(doc@)));
                        lemma_checked_accepting(target, opts, srcs.take(i as int));
                        lemma_checked_accepting(target, opts, srcs.take(i as int + 1));
                    }
                    match &self.validator {
                        Some(v) => {
                            let ghost given_before = given;
                            let check = <Box<dyn LoadValidator> as LoadValidator>::validate;
                            let answer = check(v, &doc);
                            proof {
                                let g2 = given.push(doc);
                                let a2 = answers.push(answer);
                                assert forall|k: int| 0 <= k < g2.len() implies #[trigger] call_ensures(
                                    <Box<dyn LoadValidator> as LoadValidator>::validate,
                                    (v, &g2[k]),
                                    a2[k],
                                ) by {
                                    if k < given.len() {
                                        assert(g2[k] == given[k] && a2[k] == answers[k]);
                                    }
                                }
                                assert(documents_view(g2) =~= documents_view(given).push(doc@));
                                given = g2;
                                answers = a2;
                            }
                            match answer {
                                Ok(()) => {},
                                Err(e) => {
                                    proof {
                                        assert(given.drop_last() =~= given_before);
                                        lemma_build_rejected(target, opts, srcs, i as int, given, answers, docs0, given.last()@);
                                        assert(answers.last() == Err::<(), CorpusLoaderError>(e));
                                        assert(load_hook_answers(v, given, answers));
                                        assert(checked_assemble(target, opts, srcs, load_verdicts(answers)) == (
                                            built_view(Err::<Corpus, CorpusLoaderError>(e)),
                                            documents_view(given),
                                        ));
                                    }
                                    return Err(e);
                                },
                            }
                        },
                        None => {},
                    }
                    documents.push(doc);
                    proof {
                        assert(documents_view(documents@) =~= docs0.push(doc@));
                        assert forall|h: Seq<char>| #[trigger] seen_count(seen@, h) == count_hash(documents_view(documents@), h) by {
                            assert(documents_view(documents@).drop_last() =~= docs0);
                        }
                    }
                },
            }
            i = i + 1;
        }
        proof {
            assert(srcs.take(self.pending@.len() as int) =~= srcs);
            lemma_checked_accepting(target, opts, srcs);
            lemma_build_all_accepted(target, opts, srcs, answers);
        }
        let pools = build_value_pools(documents.as_slice());
        Ok(Corpus { target: self.target, documents, pools })
    }
}

/// whether a document is already titled `title`.
fn title_taken(documents: &Vec<Document>, title: &str) -> (r: bool)
    ensures
        r == has_title(documents_view(documents@), title@),
{
    let mut i: usize = 0;
    while i < documents.len()
        invariant
            i <= documents@.len(),
            forall|j: int| 0 <= j < i ==> documents@[j].metadata.title@ != title@,
        decreases documents@.len() - i,
    {
        if str_eq(documents[i].metadata.title.as_str(), title) {
            proof {
                assert(documents_view(documents@)[i as int].metadata.title == title@);
            }
            return true;
        }
        i = i + 1;
    }
    proof {
        if has_title(documents_view(documents@), title@) {
            let j = choose|j: int| 0 <= j < documents@.len() && #[trigger] documents_view(documents@)[j].metadata.title == title@;
            assert(documents_view(documents@)[j] == documents@[j]@);
        }
    }
    false
}

fn duplicate_title(title: &str) -> (r: String)
    ensures
        r@ == duplicate_title_message(title@),
{
    let mut m = owned("duplicate header.title '");
    push_str(&mut m, title);
    push_str(&mut m, "' is not allowed when identical_title_allowed is false");
    m
}

} // verus!

verus! {

/// the hashes of documents, in order.
pub open spec fn document_hashes(ds: Seq<DocumentModel>) -> Seq<Seq<char>> {
    ds.map_values(|d: DocumentModel| d.source_hash)
}

proof fn lemma_count_hash_is_count_in(ds: Seq<DocumentModel>, h: Seq<char>)
    ensures
        count_hash(ds, h) == crate::corpus::utils::count_in(document_hashes(ds), h),
    decreases ds.len(),
{
    if ds.len() > 0 {
        lemma_count_hash_is_count_in(ds.drop_last(), h);
        assert(document_hashes(ds).drop_last() =~= document_hashes(ds.drop_last()));
    }
}

proof fn lemma_assemble_ids(target: Seq<char>, opts: CorpusLoaderOptions, srcs: Seq<PendingModel>)
    requires
        assemble(target, opts, srcs) is Ok,
    ensures
        forall|k: int| 0 <= k < assemble(target, opts, srcs)->Ok_0.len() ==> {
            &&& (#[trigger] assemble(target, opts, srcs)->Ok_0[k]).source_id == crate::corpus::utils::id_at(
                document_hashes(assemble(target, opts, srcs)->Ok_0),
                k,
            )
            &&& crate::corpus::utils::colon_free(assemble(target, opts, srcs)->Ok_0[k].source_hash)
        },
    decreases srcs.len(),
{
    if srcs.len() > 0 {
        lemma_assemble_ids(target, opts, srcs.drop_last());
        let ds = assemble(target, opts, srcs)->Ok_0;
        let ps = assemble(target, opts, srcs.drop_last())->Ok_0;
        if ds.len() != ps.len() {
            assert(ds.drop_last() =~= ps);
            let hs = document_hashes(ds);
            assert(document_hashes(ps) =~= hs.drop_last());
            match srcs.last() {
                PendingModel::Str { name, raw } => {
                    crate::corpus::utils::lemma_hex_colon_free(
                        crate::hashing::sha256_digest(vstd::utf8::encode_utf8(crate::hashing::hashed_text(target, raw))),
                    );
                },
                PendingModel::Unreadable { .. } => {},
            }
            assert forall|k: int| 0 <= k < ds.len() implies {
                &&& (#[trigger] ds[k]).source_id == crate::corpus::utils::id_at(hs, k)
                &&& crate::corpus::utils::colon_free(ds[k].source_hash)
            } by {
                if k < ds.len() - 1 {
                    assert(ds[k] == ps[k]);
                    assert(hs.take(k + 1) =~= document_hashes(ps).take(k + 1));
                } else {
                    lemma_count_hash_is_count_in(ps, ds[k].source_hash);
                    assert(hs.take(k + 1).drop_last() =~= document_hashes(ps));
                    assert(hs.take(k + 1) =~= hs);
                }
            }
        } else {
            assert(ds =~= ps);
        }
    }
}

/// every document of a built corpus has its own source id: no two
/// documents share one, even when their contents are identical.
pub proof fn law_built_source_ids_distinct(target: Seq<char>, opts: CorpusLoaderOptions, srcs: Seq<PendingModel>)
    requires
        assemble(target, opts, srcs) is Ok,
    ensures
        forall|i: int, j: int|
            0 <= i < j < assemble(target, opts, srcs)->Ok_0.len() ==> assemble(target, opts, srcs)->Ok_0[i].source_id
                != assemble(target, opts, srcs)->Ok_0[j].source_id,
{
    let ds = assemble(target, opts, srcs)->Ok_0;
    lemma_assemble_ids(target, opts, srcs);
    let hs = document_hashes(ds);
    assert forall|k: int| 0 <= k < hs.len() implies crate::corpus::utils::colon_free(#[trigger] hs[k]) by {
        assert(hs[k] == ds[k].source_hash);
    }
    assert forall|i: int, j: int| 0 <= i < j < ds.len() implies ds[i].source_id != ds[j].source_id by {
        crate::corpus::utils::law_counted_ids_distinct(hs, i, j);
    }
}

} // verus!

verus! {

proof fn lemma_reassign_ids(ds: Seq<DocumentModel>)
    ensures
        reassign_source_ids(ds).len() == ds.len(),
        forall|k: int| 0 <= k < ds.len() ==> {
            &&& (#[trigger] reassign_source_ids(ds)[k]).source_hash == ds[k].source_hash
            &&& reassign_source_ids(ds)[k].source_id == crate::corpus::utils::id_at(document_hashes(ds), k)
        },
    decreases ds.len(),
{
    lemma_reassign_len(ds);
    if ds.len() > 0 {
        let p = ds.drop_last();
        lemma_reassign_ids(p);
        let r = reassign_source_ids(ds);
        let rp = reassign_source_ids(p);
        let hs = document_hashes(ds);
        assert(document_hashes(p) =~= hs.drop_last());
        assert forall|k: int| 0 <= k < ds.len() implies {
            &&& (#[trigger] r[k]).source_hash == ds[k].source_hash
            &&& r[k].source_id == crate::corpus::utils::id_at(hs, k)
        } by {
            if k < ds.len() - 1 {
                assert(r[k] == rp[k]);
                assert(p[k] == ds[k]);
                assert(hs.take(k + 1) =~= document_hashes(p).take(k + 1));
            } else {
                lemma_count_hash_is_count_in(ds, ds[k].source_hash);
                assert(hs.take(k + 1) =~= hs);
            }
        }
    }
}

/// combining corpora gives every document its own source id, provided the
/// documents' hashes are hash text (they hold no `':'`), as built corpora's are.
pub proof fn law_combined_source_ids_distinct(ds: Seq<DocumentModel>)
    requires
        forall|k: int| 0 <= k < ds.len() ==> crate::corpus::utils::colon_free(#[trigger] ds[k].source_hash),
    ensures
        forall|i: int, j: int|
            0 <= i < j < reassign_source_ids(ds).len() ==> reassign_source_ids(ds)[i].source_id
                != reassign_source_ids(ds)[j].source_id,
{
    lemma_reassign_ids(ds);
    let hs = document_hashes(ds);
    assert forall|k: int| 0 <= k < hs.len() implies crate::corpus::utils::colon_free(#[trigger] hs[k]) by {
        assert(hs[k] == ds[k].source_hash);
    }
    assert forall|i: int, j: int| 0 <= i < j < reassign_source_ids(ds).len() implies reassign_source_ids(ds)[i].source_id
        != reassign_source_ids(ds)[j].source_id by {
        crate::corpus::utils::law_counted_ids_distinct(hs, i, j);
    }
}

} // verus!
